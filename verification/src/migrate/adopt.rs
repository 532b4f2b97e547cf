//! Matching catalog spellings to declared ones before a live schema is
//! diffed against the declared schema, so spelling alone never reads as
//! drift.
//!
//! Two steps. The first needs nothing from the database: defaults that mean
//! the same value take the declared spelling, and a single-column unique the
//! catalog reports on the column is moved to the declared named constraint.
//! The second compares check expressions, partial-index predicates and view
//! definitions with PostgreSQL's own rendering of the declared text: the
//! caller asks the database for each [`CanonicalRequest`] and hands the
//! answers back.

use vstd::prelude::*;

use crate::schema::diff::{contains_string, schemas_of, schema_set};
use crate::schema::introspect::{first_named};
use crate::schema::model::{
    clone_strings, column_named, constraint_named, find_first, index_named, lemma_find_first_at,
    lemma_find_first_some, opt_string_view, strings_equal, strings_view, Column, ColumnModel, Constraint,
    ConstraintKind, ConstraintKindModel, ConstraintModel, DatabaseSchema, DatabaseSchemaModel, Index, IndexModel,
    SqlView, SqlViewModel, Table, TableModel,
};
use crate::schema::named::{keys_of, lookup};
use crate::text::{concat_map, lemma_concat_map_step, str_eq};

use super::defaults::{defaults_equivalent, equivalent_defaults};

verus! {

// ---------------------------------------------------------------------------
// The schemas a declared schema owns

/// The distinct schemas the declared types live in, in ascending order: the
/// set that is introspected and diffed, so unrelated schemas are untouched.
pub fn owned_schemas(schema: &DatabaseSchema) -> (names: Vec<String>)
    ensures
        strings_view(names@) == keys_of(schemas_of(schema@)),
{
    let set = schema_set(schema);
    let mut names: Vec<String> = Vec::new();
    let mut i: usize = 0;
    while i < set.len()
        invariant
            i <= set@.len(),
            set@ == schemas_of(schema@),
            strings_view(names@) == keys_of(set@).take(i as int),
        decreases set@.len() - i,
    {
        let ghost before = names@;
        names.push(set.key_at(i).clone());
        assert(strings_view(names@) =~= strings_view(before).push(set@[i as int].0));
        assert(strings_view(names@) =~= keys_of(set@).take(i + 1));
        i = i + 1;
    }
    assert(keys_of(set@).take(set@.len() as int) =~= keys_of(set@));
    names
}

// ---------------------------------------------------------------------------
// Spellings decided without the database

/// Columns whose default means the declared default take its spelling.
pub open spec fn adopt_defaults(cols: Seq<ColumnModel>, declared: Seq<ColumnModel>) -> Seq<ColumnModel> {
    cols.map_values(|c: ColumnModel| match column_named(declared, c.name) {
        Some(dc) => if equivalent_defaults(c.default, dc.default) { ColumnModel { default: dc.default, ..c } } else { c },
        None => c,
    })
}

/// A declared single-column unique constraint the catalog reports as the
/// column's own unique flag (and not under the declared name) moves to the
/// declared named constraint.
pub open spec fn adopt_unique(t: TableModel, dc: ConstraintModel) -> TableModel {
    match dc.kind {
        ConstraintKindModel::Unique { columns } => if columns.len() == 1 {
            let missing = constraint_named(t.constraints, dc.name) is None;
            match first_named(t.columns, columns[0]) {
                Some(i) => if t.columns[i].unique && missing {
                    TableModel {
                        columns: t.columns.update(i, ColumnModel { unique: false, ..t.columns[i] }),
                        constraints: t.constraints.push(dc),
                        ..t
                    }
                } else {
                    t
                },
                None => t,
            }
        } else {
            t
        },
        _ => t,
    }
}

pub open spec fn adopt_uniques(t: TableModel, declared: Seq<ConstraintModel>) -> TableModel
    decreases declared.len(),
{
    if declared.len() == 0 {
        t
    } else {
        adopt_unique(adopt_uniques(t, declared.drop_last()), declared.last())
    }
}

pub open spec fn declared_spellings(t: TableModel, dt: TableModel) -> TableModel {
    adopt_uniques(TableModel { columns: adopt_defaults(t.columns, dt.columns), ..t }, dt.constraints)
}

/// Each live table with a declared counterpart under the same key, its
/// defaults and single-column uniques spelled as declared.
pub open spec fn spellings_adopted(cur: DatabaseSchemaModel, des: DatabaseSchemaModel) -> DatabaseSchemaModel {
    DatabaseSchemaModel {
        tables: cur.tables.map_values(|e: (Seq<char>, TableModel)| match lookup(des.tables, e.0) {
            Some(dt) => (e.0, declared_spellings(e.1, dt)),
            None => e,
        }),
        ..cur
    }
}

fn opt_str(o: &Option<String>) -> (r: Option<&str>)
    ensures
        match r {
            Some(s) => opt_string_view(*o) == Some(s@),
            None => o is None,
        },
{
    match o {
        Some(s) => Some(s.as_str()),
        None => None,
    }
}

#[verifier::loop_isolation(false)]
fn adopt_table_spellings(t: &mut Table, dt: &Table)
    ensures
        final(t)@ == declared_spellings(old(t)@, dt@),
{
    let ghost t0 = t@;
    let mut j: usize = 0;
    while j < t.columns.len()
        invariant
            j <= t.columns.len(),
            t@.columns.len() == t0.columns.len(),
            t@ == (TableModel { columns: t@.columns, ..t0 }),
            forall|k: int| 0 <= k < j ==> t@.columns[k] == adopt_defaults(t0.columns, dt@.columns)[k],
            forall|k: int| j <= k < t@.columns.len() ==> t@.columns[k] == t0.columns[k],
        decreases t.columns.len() - j,
    {
        let name = t.columns[j].name.clone();
        match dt.column(name.as_str()) {
            Some(dc) => {
                if defaults_equivalent(opt_str(&t.columns[j].default), opt_str(&dc.default)) {
                    let mut c = t.columns[j].duplicate();
                    c.default = crate::schema::model::clone_opt_string(&dc.default);
                    let ghost cv = c@;
                    let ghost before = t@.columns;
                    t.columns.set(j, c);
                    assert(t@.columns =~= before.update(j as int, cv));
                }
            },
            None => {},
        }
        j = j + 1;
    }
    assert(t@.columns =~= adopt_defaults(t0.columns, dt@.columns));
    let ghost t1 = t@;
    let ghost dcs = dt@.constraints;
    let mut k: usize = 0;
    while k < dt.constraints.len()
        invariant
            k <= dt.constraints.len(),
            dcs == dt@.constraints,
            t@ == adopt_uniques(t1, dcs.take(k as int)),
        decreases dt.constraints.len() - k,
    {
        let dc = &dt.constraints[k];
        assert(dcs.take(k + 1).drop_last() =~= dcs.take(k as int));
        assert(dcs.take(k + 1).last() == dc@);
        let ghost tk = t@;
        match &dc.kind {
            ConstraintKind::Unique { columns } => {
                if columns.len() == 1 {
                    let missing = t.constraint(dc.name.as_str()).is_none();
                    match crate::schema::introspect::column_index(&t.columns, columns[0].as_str()) {
                        Some(i) => {
                            if t.columns[i].unique && missing {
                                let mut c = t.columns[i].duplicate();
                                c.unique = false;
                                let ghost cv = c@;
                                t.columns.set(i, c);
                                let d = dc.duplicate();
                                let ghost dv = d@;
                                t.constraints.push(d);
                                assert(t@.columns =~= tk.columns.update(i as int, cv));
                                assert(t@.constraints =~= tk.constraints.push(dv));
                            }
                        },
                        None => {},
                    }
                }
            },
            _ => {},
        }
        k = k + 1;
    }
    assert(dcs.take(dt.constraints.len() as int) =~= dcs);
}

/// Adopts the declared spelling of defaults and single-column uniques where
/// the live schema means the same thing.
#[verifier::loop_isolation(false)]
pub fn adopt_declared_spellings(current: &mut DatabaseSchema, desired: &DatabaseSchema)
    ensures
        final(current)@ == spellings_adopted(old(current)@, desired@),
{
    let ghost c0 = current@;
    let mut i: usize = 0;
    while i < current.tables.len()
        invariant
            i <= current@.tables.len(),
            current@.tables.len() == c0.tables.len(),
            current@ == (DatabaseSchemaModel { tables: current@.tables, ..c0 }),
            forall|k: int| 0 <= k < i ==> current@.tables[k] == spellings_adopted(c0, desired@).tables[k],
            forall|k: int| i <= k < current@.tables.len() ==> current@.tables[k] == c0.tables[k],
        decreases current@.tables.len() - i,
    {
        let key = current.tables.key_at(i).clone();
        match desired.tables.get(key.as_str()) {
            Some(dt) => {
                let mut t = current.tables.value_at(i).duplicate();
                adopt_table_spellings(&mut t, dt);
                current.tables.set_value(i, t);
            },
            None => {},
        }
        i = i + 1;
    }
    assert(current@.tables =~= spellings_adopted(c0, desired@).tables);
}

// ---------------------------------------------------------------------------
// Spellings the database settles

/// A declared text whose catalog rendering the database is asked for.
#[derive(Debug)]
pub enum CanonicalRequest {
    /// A CHECK expression, as declared on a table.
    Check { schema: String, table: String, expression: String },
    /// A partial index predicate, as declared over some columns of a table.
    IndexPredicate { schema: String, table: String, columns: Vec<String>, predicate: String },
    /// A view's SELECT, as declared.
    View { definition: String },
}

pub enum CanonicalRequestModel {
    Check { schema: Seq<char>, table: Seq<char>, expression: Seq<char> },
    IndexPredicate { schema: Seq<char>, table: Seq<char>, columns: Seq<Seq<char>>, predicate: Seq<char> },
    View { definition: Seq<char> },
}

impl View for CanonicalRequest {
    type V = CanonicalRequestModel;

    open spec fn view(&self) -> CanonicalRequestModel {
        match self {
            CanonicalRequest::Check { schema, table, expression } =>
                CanonicalRequestModel::Check { schema: schema@, table: table@, expression: expression@ },
            CanonicalRequest::IndexPredicate { schema, table, columns, predicate } => CanonicalRequestModel::IndexPredicate {
                schema: schema@,
                table: table@,
                columns: strings_view(columns@),
                predicate: predicate@,
            },
            CanonicalRequest::View { definition } => CanonicalRequestModel::View { definition: definition@ },
        }
    }
}

/// What the database answered for one request.
#[derive(Debug)]
pub struct CanonicalAnswer {
    pub request: CanonicalRequest,
    pub canonical: String,
}

impl View for CanonicalAnswer {
    type V = (CanonicalRequestModel, Seq<char>);

    open spec fn view(&self) -> (CanonicalRequestModel, Seq<char>) {
        (self.request@, self.canonical@)
    }
}

/// The declared CHECK expression a live check constraint is compared with.
pub open spec fn declared_check(dt: TableModel, c: ConstraintModel) -> Option<Seq<char>> {
    match c.kind {
        ConstraintKindModel::Check { .. } => match constraint_named(dt.constraints, c.name) {
            Some(d) => match d.kind {
                ConstraintKindModel::Check { expression } => Some(expression),
                _ => None,
            },
            None => None,
        },
        _ => None,
    }
}

/// The declared columns and predicate a live partial index is compared
/// with: both partial, over the same columns, equally unique.
pub open spec fn declared_predicate(dt: TableModel, x: IndexModel) -> Option<(Seq<Seq<char>>, Seq<char>)> {
    match index_named(dt.indexes, x.name) {
        Some(d) => if x.predicate is Some && d.predicate is Some && x.columns == d.columns && x.unique == d.unique {
            Some((d.columns, d.predicate->0))
        } else {
            None
        },
        None => None,
    }
}

pub open spec fn table_requests(t: TableModel, dt: TableModel) -> Seq<CanonicalRequestModel> {
    concat_map(t.constraints, |c: ConstraintModel| match declared_check(dt, c) {
        Some(e) => seq![CanonicalRequestModel::Check { schema: t.schema, table: t.name, expression: e }],
        None => seq![],
    }) + concat_map(t.indexes, |x: IndexModel| match declared_predicate(dt, x) {
        Some(p) => seq![CanonicalRequestModel::IndexPredicate { schema: t.schema, table: t.name, columns: p.0, predicate: p.1 }],
        None => seq![],
    })
}

/// Every declared text the comparison needs rendered, in the order the
/// live schema is walked: each table's checks, then its partial indexes;
/// then the views.
pub open spec fn requests_of(cur: DatabaseSchemaModel, des: DatabaseSchemaModel) -> Seq<CanonicalRequestModel> {
    concat_map(cur.tables, |e: (Seq<char>, TableModel)| match lookup(des.tables, e.0) {
        Some(dt) => table_requests(e.1, dt),
        None => seq![],
    }) + concat_map(cur.views, |e: (Seq<char>, SqlViewModel)| match lookup(des.views, e.0) {
        Some(dv) => seq![CanonicalRequestModel::View { definition: dv.definition }],
        None => seq![],
    })
}

pub open spec fn answers_request(r: CanonicalRequestModel) -> spec_fn((CanonicalRequestModel, Seq<char>)) -> bool {
    |a: (CanonicalRequestModel, Seq<char>)| a.0 == r
}

/// The database's rendering of a request, from the first answer to it.
pub open spec fn answer_for(answers: Seq<(CanonicalRequestModel, Seq<char>)>, r: CanonicalRequestModel) -> Option<Seq<char>> {
    match find_first(answers, answers_request(r)) {
        Some(a) => Some(a.1),
        None => None,
    }
}

pub open spec fn adopt_check(t: TableModel, dt: TableModel, answers: Seq<(CanonicalRequestModel, Seq<char>)>, c: ConstraintModel) -> ConstraintModel {
    match declared_check(dt, c) {
        Some(declared) => match c.kind {
            ConstraintKindModel::Check { expression } =>
                if answer_for(answers, CanonicalRequestModel::Check { schema: t.schema, table: t.name, expression: declared })
                    == Some(expression) {
                    ConstraintModel { kind: ConstraintKindModel::Check { expression: declared }, ..c }
                } else {
                    c
                },
            _ => c,
        },
        None => c,
    }
}

pub open spec fn adopt_index(t: TableModel, dt: TableModel, answers: Seq<(CanonicalRequestModel, Seq<char>)>, x: IndexModel) -> IndexModel {
    match declared_predicate(dt, x) {
        Some(p) =>
            if answer_for(answers, CanonicalRequestModel::IndexPredicate { schema: t.schema, table: t.name, columns: p.0, predicate: p.1 })
                == x.predicate {
                IndexModel { predicate: Some(p.1), ..x }
            } else {
                x
            },
        None => x,
    }
}

pub open spec fn canonical_table(t: TableModel, dt: TableModel, answers: Seq<(CanonicalRequestModel, Seq<char>)>) -> TableModel {
    TableModel {
        constraints: t.constraints.map_values(|c: ConstraintModel| adopt_check(t, dt, answers, c)),
        indexes: t.indexes.map_values(|x: IndexModel| adopt_index(t, dt, answers, x)),
        ..t
    }
}

pub open spec fn adopt_view(v: SqlViewModel, dv: SqlViewModel, answers: Seq<(CanonicalRequestModel, Seq<char>)>) -> SqlViewModel {
    if answer_for(answers, CanonicalRequestModel::View { definition: dv.definition }) == Some(v.definition) {
        SqlViewModel { definition: dv.definition, ..v }
    } else {
        v
    }
}

/// Live checks, partial-index predicates and views whose text the database
/// renders exactly as it renders the declared text take the declared text.
pub open spec fn canonical_adopted(cur: DatabaseSchemaModel, des: DatabaseSchemaModel, answers: Seq<(CanonicalRequestModel, Seq<char>)>) -> DatabaseSchemaModel {
    DatabaseSchemaModel {
        tables: cur.tables.map_values(|e: (Seq<char>, TableModel)| match lookup(des.tables, e.0) {
            Some(dt) => (e.0, canonical_table(e.1, dt, answers)),
            None => e,
        }),
        views: cur.views.map_values(|e: (Seq<char>, SqlViewModel)| match lookup(des.views, e.0) {
            Some(dv) => (e.0, adopt_view(e.1, dv, answers)),
            None => e,
        }),
        ..cur
    }
}

fn declared_check_of(dt: &Table, c: &Constraint) -> (e: Option<String>)
    ensures
        match e {
            Some(e) => declared_check(dt@, c@) == Some(e@),
            None => declared_check(dt@, c@) is None,
        },
{
    match &c.kind {
        ConstraintKind::Check { .. } => match dt.constraint(c.name.as_str()) {
            Some(d) => match &d.kind {
                ConstraintKind::Check { expression } => Some(expression.clone()),
                _ => None,
            },
            None => None,
        },
        _ => None,
    }
}

fn declared_predicate_of(dt: &Table, x: &Index) -> (p: Option<(Vec<String>, String)>)
    ensures
        match p {
            Some(p) => declared_predicate(dt@, x@) == Some((strings_view(p.0@), p.1@)),
            None => declared_predicate(dt@, x@) is None,
        },
{
    match dt.index(x.name.as_str()) {
        Some(d) => match (&x.predicate, &d.predicate) {
            (Some(_), Some(dp)) => {
                if strings_equal(&x.columns, &d.columns) && x.unique == d.unique {
                    Some((clone_strings(&d.columns), dp.clone()))
                } else {
                    None
                }
            },
            _ => None,
        },
        None => None,
    }
}

fn push_request(requests: &mut Vec<CanonicalRequest>, r: CanonicalRequest)
    ensures
        final(requests)@.map_values(|q: CanonicalRequest| q@) == old(requests)@.map_values(|q: CanonicalRequest| q@).push(r@),
{
    requests.push(r);
    assert(requests@.map_values(|q: CanonicalRequest| q@) =~= old(requests)@.map_values(|q: CanonicalRequest| q@).push(r@));
}

#[verifier::loop_isolation(false)]
fn collect_table_requests(t: &Table, dt: &Table, requests: &mut Vec<CanonicalRequest>)
    ensures
        final(requests)@.map_values(|q: CanonicalRequest| q@) == old(requests)@.map_values(|q: CanonicalRequest| q@) + table_requests(t@, dt@),
{
    let ghost start = requests@.map_values(|q: CanonicalRequest| q@);
    let ghost f = |c: ConstraintModel| match declared_check(dt@, c) {
        Some(e) => seq![CanonicalRequestModel::Check { schema: t@.schema, table: t@.name, expression: e }],
        None => seq![],
    };
    let mut k: usize = 0;
    while k < t.constraints.len()
        invariant
            k <= t.constraints.len(),
            requests@.map_values(|q: CanonicalRequest| q@) == start + concat_map(t@.constraints.take(k as int), f),
        decreases t.constraints.len() - k,
    {
        let ghost before = requests@.map_values(|q: CanonicalRequest| q@);
        match declared_check_of(dt, &t.constraints[k]) {
            Some(e) => {
                push_request(requests, CanonicalRequest::Check { schema: t.schema.clone(), table: t.name.clone(), expression: e });
            },
            None => {},
        }
        proof { lemma_concat_map_step(t@.constraints, f, k as int); }
        assert(requests@.map_values(|q: CanonicalRequest| q@) =~= start + concat_map(t@.constraints.take(k + 1), f));
        k = k + 1;
    }
    assert(t@.constraints.take(t.constraints.len() as int) =~= t@.constraints);
    let ghost mid = requests@.map_values(|q: CanonicalRequest| q@);
    let ghost g = |x: IndexModel| match declared_predicate(dt@, x) {
        Some(p) => seq![CanonicalRequestModel::IndexPredicate { schema: t@.schema, table: t@.name, columns: p.0, predicate: p.1 }],
        None => seq![],
    };
    let mut k: usize = 0;
    while k < t.indexes.len()
        invariant
            k <= t.indexes.len(),
            requests@.map_values(|q: CanonicalRequest| q@) == mid + concat_map(t@.indexes.take(k as int), g),
        decreases t.indexes.len() - k,
    {
        match declared_predicate_of(dt, &t.indexes[k]) {
            Some((columns, predicate)) => {
                push_request(requests, CanonicalRequest::IndexPredicate {
                    schema: t.schema.clone(),
                    table: t.name.clone(),
                    columns,
                    predicate,
                });
            },
            None => {},
        }
        proof { lemma_concat_map_step(t@.indexes, g, k as int); }
        assert(requests@.map_values(|q: CanonicalRequest| q@) =~= mid + concat_map(t@.indexes.take(k + 1), g));
        k = k + 1;
    }
    assert(t@.indexes.take(t.indexes.len() as int) =~= t@.indexes);
}

/// The declared texts whose catalog rendering the comparison needs.
#[verifier::loop_isolation(false)]
pub fn canonical_requests(current: &DatabaseSchema, desired: &DatabaseSchema) -> (requests: Vec<CanonicalRequest>)
    ensures
        requests@.map_values(|q: CanonicalRequest| q@) == requests_of(current@, desired@),
{
    let mut requests: Vec<CanonicalRequest> = Vec::new();
    let ghost f = |e: (Seq<char>, TableModel)| match lookup(desired@.tables, e.0) {
        Some(dt) => table_requests(e.1, dt),
        None => seq![],
    };
    let mut i: usize = 0;
    while i < current.tables.len()
        invariant
            i <= current@.tables.len(),
            requests@.map_values(|q: CanonicalRequest| q@) == concat_map(current@.tables.take(i as int), f),
        decreases current@.tables.len() - i,
    {
        match desired.tables.get(current.tables.key_at(i).as_str()) {
            Some(dt) => collect_table_requests(current.tables.value_at(i), dt, &mut requests),
            None => {},
        }
        proof { lemma_concat_map_step(current@.tables, f, i as int); }
        i = i + 1;
    }
    assert(current@.tables.take(current@.tables.len() as int) =~= current@.tables);
    let ghost mid = requests@.map_values(|q: CanonicalRequest| q@);
    let ghost g = |e: (Seq<char>, SqlViewModel)| match lookup(desired@.views, e.0) {
        Some(dv) => seq![CanonicalRequestModel::View { definition: dv.definition }],
        None => seq![],
    };
    let mut i: usize = 0;
    while i < current.views.len()
        invariant
            i <= current@.views.len(),
            requests@.map_values(|q: CanonicalRequest| q@) == mid + concat_map(current@.views.take(i as int), g),
        decreases current@.views.len() - i,
    {
        match desired.views.get(current.views.key_at(i).as_str()) {
            Some(dv) => push_request(&mut requests, CanonicalRequest::View { definition: dv.definition.clone() }),
            None => {},
        }
        proof { lemma_concat_map_step(current@.views, g, i as int); }
        assert(requests@.map_values(|q: CanonicalRequest| q@) =~= mid + concat_map(current@.views.take(i + 1), g));
        i = i + 1;
    }
    assert(current@.views.take(current@.views.len() as int) =~= current@.views);
    requests
}

fn same_request(a: &CanonicalRequest, b: &CanonicalRequest) -> (same: bool)
    ensures
        same == (a@ == b@),
{
    match (a, b) {
        (CanonicalRequest::Check { schema: s1, table: t1, expression: e1 },
         CanonicalRequest::Check { schema: s2, table: t2, expression: e2 }) =>
            str_eq(s1.as_str(), s2.as_str()) && str_eq(t1.as_str(), t2.as_str()) && str_eq(e1.as_str(), e2.as_str()),
        (CanonicalRequest::IndexPredicate { schema: s1, table: t1, columns: c1, predicate: p1 },
         CanonicalRequest::IndexPredicate { schema: s2, table: t2, columns: c2, predicate: p2 }) =>
            str_eq(s1.as_str(), s2.as_str()) && str_eq(t1.as_str(), t2.as_str()) && strings_equal(c1, c2)
                && str_eq(p1.as_str(), p2.as_str()),
        (CanonicalRequest::View { definition: d1 }, CanonicalRequest::View { definition: d2 }) =>
            str_eq(d1.as_str(), d2.as_str()),
        _ => false,
    }
}

pub open spec fn answers_view(answers: Seq<CanonicalAnswer>) -> Seq<(CanonicalRequestModel, Seq<char>)> {
    answers.map_values(|a: CanonicalAnswer| a@)
}

fn lookup_answer<'a>(answers: &'a Vec<CanonicalAnswer>, r: &CanonicalRequest) -> (found: Option<&'a String>)
    ensures
        match found {
            Some(s) => answer_for(answers_view(answers@), r@) == Some(s@),
            None => answer_for(answers_view(answers@), r@) is None,
        },
{
    let ghost av = answers_view(answers@);
    let ghost p = answers_request(r@);
    let mut k: usize = 0;
    while k < answers.len()
        invariant
            k <= answers.len(),
            av == answers_view(answers@),
            p == answers_request(r@),
            forall|j: int| 0 <= j < k ==> !p(#[trigger] av[j]),
        decreases answers.len() - k,
    {
        if same_request(&answers[k].request, r) {
            assert(p(av[k as int]));
            proof { lemma_find_first_at(av, p, k as int); }
            return Some(&answers[k].canonical);
        }
        assert(!p(av[k as int]));
        k = k + 1;
    }
    proof {
        lemma_find_first_some(av, p);
    }
    None
}

#[verifier::loop_isolation(false)]
fn adopt_table_canonical(t: &mut Table, dt: &Table, answers: &Vec<CanonicalAnswer>)
    ensures
        final(t)@ == canonical_table(old(t)@, dt@, answers_view(answers@)),
{
    let ghost t0 = t@;
    let ghost av = answers_view(answers@);
    let mut k: usize = 0;
    while k < t.constraints.len()
        invariant
            k <= t.constraints.len(),
            t@.constraints.len() == t0.constraints.len(),
            t@ == (TableModel { constraints: t@.constraints, ..t0 }),
            forall|m: int| 0 <= m < k ==> t@.constraints[m] == adopt_check(t0, dt@, av, t0.constraints[m]),
            forall|m: int| k <= m < t@.constraints.len() ==> t@.constraints[m] == t0.constraints[m],
        decreases t.constraints.len() - k,
    {
        match declared_check_of(dt, &t.constraints[k]) {
            Some(declared) => {
                let adopt = match &t.constraints[k].kind {
                    ConstraintKind::Check { expression } => {
                        let request = CanonicalRequest::Check {
                            schema: t.schema.clone(),
                            table: t.name.clone(),
                            expression: declared.clone(),
                        };
                        match lookup_answer(answers, &request) {
                            Some(canonical) => str_eq(canonical.as_str(), expression.as_str()),
                            None => false,
                        }
                    },
                    _ => false,
                };
                if adopt {
                    let c = Constraint { name: t.constraints[k].name.clone(), kind: ConstraintKind::Check { expression: declared } };
                    let ghost cv = c@;
                    let ghost before = t@.constraints;
                    t.constraints.set(k, c);
                    assert(t@.constraints =~= before.update(k as int, cv));
                }
            },
            None => {},
        }
        k = k + 1;
    }
    assert(t@.constraints =~= t0.constraints.map_values(|c: ConstraintModel| adopt_check(t0, dt@, av, c)));
    let mut k: usize = 0;
    while k < t.indexes.len()
        invariant
            k <= t.indexes.len(),
            t@.indexes.len() == t0.indexes.len(),
            t@ == (TableModel { constraints: t0.constraints.map_values(|c: ConstraintModel| adopt_check(t0, dt@, av, c)), indexes: t@.indexes, ..t0 }),
            forall|m: int| 0 <= m < k ==> t@.indexes[m] == adopt_index(t0, dt@, av, t0.indexes[m]),
            forall|m: int| k <= m < t@.indexes.len() ==> t@.indexes[m] == t0.indexes[m],
        decreases t.indexes.len() - k,
    {
        match declared_predicate_of(dt, &t.indexes[k]) {
            Some((columns, predicate)) => {
                let request = CanonicalRequest::IndexPredicate {
                    schema: t.schema.clone(),
                    table: t.name.clone(),
                    columns,
                    predicate: predicate.clone(),
                };
                let adopt = match (lookup_answer(answers, &request), &t.indexes[k].predicate) {
                    (Some(canonical), Some(current)) => str_eq(canonical.as_str(), current.as_str()),
                    _ => false,
                };
                if adopt {
                    let mut x = t.indexes[k].duplicate();
                    x.predicate = Some(predicate);
                    let ghost xv = x@;
                    let ghost before = t@.indexes;
                    t.indexes.set(k, x);
                    assert(t@.indexes =~= before.update(k as int, xv));
                }
            },
            None => {},
        }
        k = k + 1;
    }
    assert(t@.constraints =~= t0.constraints.map_values(|c: ConstraintModel| adopt_check(t0, dt@, av, c)));
    assert(t@.indexes =~= t0.indexes.map_values(|x: IndexModel| adopt_index(t0, dt@, av, x)));
}

/// Adopts the declared text of checks, partial-index predicates and views
/// whose live text is the database's rendering of the declared one, as
/// `answers` report it; a text without an answer is left as it is.
#[verifier::loop_isolation(false)]
pub fn adopt_canonical_matches(current: &mut DatabaseSchema, desired: &DatabaseSchema, answers: &Vec<CanonicalAnswer>)
    ensures
        final(current)@ == canonical_adopted(old(current)@, desired@, answers_view(answers@)),
{
    let ghost c0 = current@;
    let ghost av = answers_view(answers@);
    let mut i: usize = 0;
    while i < current.tables.len()
        invariant
            i <= current@.tables.len(),
            current@.tables.len() == c0.tables.len(),
            current@ == (DatabaseSchemaModel { tables: current@.tables, ..c0 }),
            forall|k: int| 0 <= k < i ==> current@.tables[k] == canonical_adopted(c0, desired@, av).tables[k],
            forall|k: int| i <= k < current@.tables.len() ==> current@.tables[k] == c0.tables[k],
        decreases current@.tables.len() - i,
    {
        let key = current.tables.key_at(i).clone();
        match desired.tables.get(key.as_str()) {
            Some(dt) => {
                let mut t = current.tables.value_at(i).duplicate();
                adopt_table_canonical(&mut t, dt, answers);
                current.tables.set_value(i, t);
            },
            None => {},
        }
        i = i + 1;
    }
    assert(current@.tables =~= canonical_adopted(c0, desired@, av).tables);
    let ghost c1 = current@;
    let mut i: usize = 0;
    while i < current.views.len()
        invariant
            i <= current@.views.len(),
            current@.views.len() == c0.views.len(),
            current@ == (DatabaseSchemaModel { views: current@.views, ..c1 }),
            forall|k: int| 0 <= k < i ==> current@.views[k] == canonical_adopted(c0, desired@, av).views[k],
            forall|k: int| i <= k < current@.views.len() ==> current@.views[k] == c0.views[k],
        decreases current@.views.len() - i,
    {
        let key = current.views.key_at(i).clone();
        match desired.views.get(key.as_str()) {
            Some(dv) => {
                let v = current.views.value_at(i);
                let request = CanonicalRequest::View { definition: dv.definition.clone() };
                let adopt = match lookup_answer(answers, &request) {
                    Some(canonical) => str_eq(canonical.as_str(), v.definition.as_str()),
                    None => false,
                };
                if adopt {
                    let nv = SqlView { schema: v.schema.clone(), name: v.name.clone(), definition: dv.definition.clone() };
                    current.views.set_value(i, nv);
                }
            },
            None => {},
        }
        i = i + 1;
    }
    assert(current@.views =~= canonical_adopted(c0, desired@, av).views);
}

} // verus!
