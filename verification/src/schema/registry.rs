//! The declared schema: entries the type declarations register, turned into
//! the owned schema model. A view is declared column by column; its FROM
//! table is its first column's table and its JOINs follow the foreign keys
//! between the tables involved.

use vstd::prelude::*;

use super::model::{
    find_first, lemma_find_first_at, lemma_find_first_concat, lemma_find_first_some, qualify, strings_view, Column, ColumnModel, Constraint,
    ConstraintKind, ConstraintKindModel, ConstraintModel, DatabaseSchema, EnumType, EnumTypeModel, ForeignKey,
    ForeignKeyModel, Index, IndexModel, ReferentialAction, SqlView, SqlViewModel, Table, TableModel,
};
use super::named::{lookup, NamedMap};
use crate::text::{concat2, concat3, concat_map, join, join_strings, lemma_concat_map_step, owned, str_eq};

verus! {

/// An enum as declared.
pub struct EnumItem {
    pub name: &'static str,
    pub values: &'static [&'static str],
}

pub struct TableItem {
    pub schema: &'static str,
    pub name: &'static str,
    pub columns: &'static [ColumnItem],
    pub constraints: &'static [ConstraintItem],
    pub indexes: &'static [IndexItem],
}

/// A table-level constraint: a multi-column unique or a check.
pub struct ConstraintItem {
    pub name: &'static str,
    pub kind: ConstraintKindItem,
}

pub enum ConstraintKindItem {
    Unique { columns: &'static [&'static str] },
    Check { expression: &'static str },
}

pub struct IndexItem {
    pub name: &'static str,
    pub columns: &'static [&'static str],
    pub unique: bool,
    pub predicate: Option<&'static str>,
}

pub struct ColumnItem {
    pub name: &'static str,
    pub sql_type: &'static str,
    pub nullable: bool,
    pub primary_key: bool,
    pub unique: bool,
    pub default: Option<&'static str>,
    pub foreign_key: Option<ForeignKeyItem>,
}

pub struct ForeignKeyItem {
    pub schema: &'static str,
    pub table: &'static str,
    pub column: &'static str,
    pub on_update: ReferentialAction,
    pub on_delete: ReferentialAction,
}

/// A view declared column by column.
pub struct ViewItem {
    pub schema: &'static str,
    pub name: &'static str,
    pub columns: &'static [ViewColumnItem],
    pub filter: Option<&'static str>,
    pub order_by: Option<&'static str>,
}

pub struct ViewColumnItem {
    /// Output column name.
    pub alias: &'static str,
    /// The source column's schema, table and column.
    pub schema: &'static str,
    pub table: &'static str,
    pub column: &'static str,
}

pub open spec fn strs_view(v: Seq<&'static str>) -> Seq<Seq<char>> {
    v.map_values(|s: &'static str| s@)
}

pub open spec fn opt_str_view(o: Option<&'static str>) -> Option<Seq<char>> {
    match o {
        Some(s) => Some(s@),
        None => None,
    }
}

fn owned_strings(v: &[&'static str]) -> (res: Vec<String>)
    ensures
        strings_view(res@) == strs_view(v@),
{
    let mut res: Vec<String> = Vec::new();
    let mut i: usize = 0;
    while i < v.len()
        invariant
            i <= v@.len(),
            strings_view(res@) == strs_view(v@).take(i as int),
        decreases v@.len() - i,
    {
        let ghost before = res@;
        res.push(owned(v[i]));
        assert(strings_view(res@) =~= strings_view(before).push(v@[i as int]@));
        assert(strings_view(res@) =~= strs_view(v@).take(i + 1));
        i = i + 1;
    }
    assert(strs_view(v@).take(v@.len() as int) =~= strs_view(v@));
    res
}

fn owned_opt(o: Option<&'static str>) -> (res: Option<String>)
    ensures
        super::model::opt_string_view(res) == opt_str_view(o),
{
    match o {
        Some(s) => Some(owned(s)),
        None => None,
    }
}

pub open spec fn fk_item_model(f: &ForeignKeyItem) -> ForeignKeyModel {
    ForeignKeyModel { schema: f.schema@, table: f.table@, column: f.column@, on_update: f.on_update, on_delete: f.on_delete }
}

pub open spec fn column_item_model(c: &ColumnItem) -> ColumnModel {
    ColumnModel {
        name: c.name@,
        sql_type: c.sql_type@,
        nullable: c.nullable,
        primary_key: c.primary_key,
        unique: c.unique,
        default: opt_str_view(c.default),
        foreign_key: match c.foreign_key {
            Some(f) => Some(fk_item_model(&f)),
            None => None,
        },
    }
}

pub open spec fn constraint_item_model(c: &ConstraintItem) -> ConstraintModel {
    ConstraintModel {
        name: c.name@,
        kind: match c.kind {
            ConstraintKindItem::Unique { columns } => ConstraintKindModel::Unique { columns: strs_view(columns@) },
            ConstraintKindItem::Check { expression } => ConstraintKindModel::Check { expression: expression@ },
        },
    }
}

pub open spec fn index_item_model(x: &IndexItem) -> IndexModel {
    IndexModel { name: x.name@, columns: strs_view(x.columns@), unique: x.unique, predicate: opt_str_view(x.predicate) }
}

pub open spec fn table_item_model(t: &TableItem) -> TableModel {
    TableModel {
        schema: t.schema@,
        name: t.name@,
        columns: t.columns@.map_values(|c: ColumnItem| column_item_model(&c)),
        constraints: t.constraints@.map_values(|c: ConstraintItem| constraint_item_model(&c)),
        indexes: t.indexes@.map_values(|x: IndexItem| index_item_model(&x)),
    }
}

impl EnumType {
    pub fn from(item: &EnumItem) -> (e: EnumType)
        ensures
            e@ == (EnumTypeModel { name: item.name@, values: strs_view(item.values@) }),
    {
        EnumType { name: owned(item.name), values: owned_strings(item.values) }
    }
}

impl ForeignKey {
    pub fn from(item: &ForeignKeyItem) -> (f: ForeignKey)
        ensures
            f@ == fk_item_model(item),
    {
        ForeignKey {
            schema: owned(item.schema),
            table: owned(item.table),
            column: owned(item.column),
            on_update: item.on_update,
            on_delete: item.on_delete,
        }
    }
}

impl Column {
    pub fn from(item: &ColumnItem) -> (c: Column)
        ensures
            c@ == column_item_model(item),
    {
        Column {
            name: owned(item.name),
            sql_type: owned(item.sql_type),
            nullable: item.nullable,
            primary_key: item.primary_key,
            unique: item.unique,
            default: owned_opt(item.default),
            foreign_key: match &item.foreign_key {
                Some(f) => Some(ForeignKey::from(f)),
                None => None,
            },
        }
    }
}

impl Constraint {
    pub fn from(item: &ConstraintItem) -> (c: Constraint)
        ensures
            c@ == constraint_item_model(item),
    {
        let kind = match &item.kind {
            ConstraintKindItem::Unique { columns } => ConstraintKind::Unique { columns: owned_strings(columns) },
            ConstraintKindItem::Check { expression } => ConstraintKind::Check { expression: owned(expression) },
        };
        Constraint { name: owned(item.name), kind }
    }
}

impl Index {
    pub fn from(item: &IndexItem) -> (x: Index)
        ensures
            x@ == index_item_model(item),
    {
        Index {
            name: owned(item.name),
            columns: owned_strings(item.columns),
            unique: item.unique,
            predicate: owned_opt(item.predicate),
        }
    }
}

impl Table {
    pub fn from(item: &TableItem) -> (t: Table)
        ensures
            t@ == table_item_model(item),
    {
        let mut columns: Vec<Column> = Vec::new();
        let mut i: usize = 0;
        while i < item.columns.len()
            invariant
                i <= item.columns@.len(),
                columns@.map_values(|c: Column| c@) == item.columns@.map_values(|c: ColumnItem| column_item_model(&c)).take(i as int),
            decreases item.columns@.len() - i,
        {
            let ghost before = columns@;
            let c = Column::from(&item.columns[i]);
            let ghost cv = c@;
            columns.push(c);
            assert(columns@.map_values(|c: Column| c@) =~= before.map_values(|c: Column| c@).push(cv));
            assert(columns@.map_values(|c: Column| c@) =~= item.columns@.map_values(|c: ColumnItem| column_item_model(&c)).take(i + 1));
            i = i + 1;
        }
        let mut constraints: Vec<Constraint> = Vec::new();
        let mut i: usize = 0;
        while i < item.constraints.len()
            invariant
                i <= item.constraints@.len(),
                constraints@.map_values(|c: Constraint| c@) == item.constraints@.map_values(|c: ConstraintItem| constraint_item_model(&c)).take(i as int),
            decreases item.constraints@.len() - i,
        {
            let ghost before = constraints@;
            let c = Constraint::from(&item.constraints[i]);
            let ghost cv = c@;
            constraints.push(c);
            assert(constraints@.map_values(|c: Constraint| c@) =~= before.map_values(|c: Constraint| c@).push(cv));
            assert(constraints@.map_values(|c: Constraint| c@) =~= item.constraints@.map_values(|c: ConstraintItem| constraint_item_model(&c)).take(i + 1));
            i = i + 1;
        }
        let mut indexes: Vec<Index> = Vec::new();
        let mut i: usize = 0;
        while i < item.indexes.len()
            invariant
                i <= item.indexes@.len(),
                indexes@.map_values(|x: Index| x@) == item.indexes@.map_values(|x: IndexItem| index_item_model(&x)).take(i as int),
            decreases item.indexes@.len() - i,
        {
            let ghost before = indexes@;
            let x = Index::from(&item.indexes[i]);
            let ghost xv = x@;
            indexes.push(x);
            assert(indexes@.map_values(|x: Index| x@) =~= before.map_values(|x: Index| x@).push(xv));
            assert(indexes@.map_values(|x: Index| x@) =~= item.indexes@.map_values(|x: IndexItem| index_item_model(&x)).take(i + 1));
            i = i + 1;
        }
        assert(item.columns@.map_values(|c: ColumnItem| column_item_model(&c)).take(item.columns@.len() as int)
            =~= item.columns@.map_values(|c: ColumnItem| column_item_model(&c)));
        assert(item.constraints@.map_values(|c: ConstraintItem| constraint_item_model(&c)).take(item.constraints@.len() as int)
            =~= item.constraints@.map_values(|c: ConstraintItem| constraint_item_model(&c)));
        assert(item.indexes@.map_values(|x: IndexItem| index_item_model(&x)).take(item.indexes@.len() as int)
            =~= item.indexes@.map_values(|x: IndexItem| index_item_model(&x)));
        Table { schema: owned(item.schema), name: owned(item.name), columns, constraints, indexes }
    }
}

// ---------------------------------------------------------------------------
// Views

pub struct ViewColumnModel {
    pub alias: Seq<char>,
    pub schema: Seq<char>,
    pub table: Seq<char>,
    pub column: Seq<char>,
}

pub open spec fn view_column_model(c: &ViewColumnItem) -> ViewColumnModel {
    ViewColumnModel { alias: c.alias@, schema: c.schema@, table: c.table@, column: c.column@ }
}

pub open spec fn view_columns(item: &ViewItem) -> Seq<ViewColumnModel> {
    item.columns@.map_values(|c: ViewColumnItem| view_column_model(&c))
}

/// A column whose foreign key points at `schema.table`.
pub open spec fn links_to(schema: Seq<char>, table: Seq<char>) -> spec_fn(ColumnModel) -> bool {
    |c: ColumnModel| match c.foreign_key {
        Some(fk) => fk.schema == schema && fk.table == table,
        None => false,
    }
}

/// The JOIN that brings `joined`'s table into a view based on `base`'s
/// table: through the first base column referencing it, else through the
/// first of its columns referencing the base table.
pub open spec fn join_clause(tables: Seq<(Seq<char>, TableModel)>, base: ViewColumnModel, joined: ViewColumnModel) -> Option<Seq<char>> {
    let target = qualify(joined.schema, joined.table);
    let via_base = match lookup(tables, qualify(base.schema, base.table)) {
        Some(bt) => find_first(bt.columns, links_to(joined.schema, joined.table)),
        None => None,
    };
    match via_base {
        Some(c) => Some("JOIN "@ + target + " ON "@ + base.table + "."@ + c.name + " = "@ + joined.table + "."@
            + c.foreign_key->0.column),
        None => match lookup(tables, target) {
            Some(jt) => match find_first(jt.columns, links_to(base.schema, base.table)) {
                Some(c) => Some("JOIN "@ + target + " ON "@ + joined.table + "."@ + c.name + " = "@ + base.table + "."@
                    + c.foreign_key->0.column),
                None => None,
            },
            None => None,
        },
    }
}

/// Column `k` brings in a table not yet seen: neither the base table nor
/// that of an earlier column.
pub open spec fn first_of_its_table(cols: Seq<ViewColumnModel>, k: int) -> bool {
    &&& !(cols[k].schema == cols[0].schema && cols[k].table == cols[0].table)
    &&& forall|j: int| 0 <= j < k ==> !(cols[j].schema == cols[k].schema && cols[j].table == cols[k].table)
}

/// Positions of the columns that bring in a new table, in order.
pub open spec fn joined_positions(cols: Seq<ViewColumnModel>) -> Seq<int> {
    concat_map(super::diff::indices(cols.len()), |k: int| if first_of_its_table(cols, k) { seq![k] } else { seq![] })
}

/// The first new table no foreign key joins to the base.
pub open spec fn unjoinable(tables: Seq<(Seq<char>, TableModel)>, cols: Seq<ViewColumnModel>) -> Option<int> {
    find_first(joined_positions(cols), |k: int| join_clause(tables, cols[0], cols[k]) is None)
}

pub open spec fn select_list(cols: Seq<ViewColumnModel>) -> Seq<char> {
    join(cols.map_values(|c: ViewColumnModel| c.table + "."@ + c.column + " AS "@ + c.alias), ", "@)
}

/// The view's SELECT: its columns, FROM the first column's table, one JOIN
/// per further table in first-seen order, then the filter and ordering.
pub open spec fn view_definition(tables: Seq<(Seq<char>, TableModel)>, item: &ViewItem) -> Seq<char> {
    let cols = view_columns(item);
    let base = cols[0];
    "SELECT "@ + select_list(cols) + " FROM "@ + base.schema + "."@ + base.table
        + concat_map(joined_positions(cols), |k: int| " "@ + join_clause(tables, base, cols[k])->0)
        + (match item.filter {
            Some(f) => " WHERE "@ + f@,
            None => seq![],
        })
        + (match item.order_by {
            Some(o) => " ORDER BY "@ + o@,
            None => seq![],
        })
}

/// Why a declared view cannot be built.
#[derive(Debug)]
pub enum ViewError {
    NoJoin {
        schema: String,
        name: String,
        base_schema: String,
        base_table: String,
        joined_schema: String,
        joined_table: String,
    },
}

impl ViewError {
    pub fn message(&self) -> (text: String)
        ensures
            match self {
                ViewError::NoJoin { schema, name, base_schema, base_table, joined_schema, joined_table } =>
                    text@ == "view "@ + schema@ + "."@ + name@ + ": no foreign key links "@ + base_schema@ + "."@ + base_table@
                        + " to "@ + joined_schema@ + "."@ + joined_table@ + " \u{2014} declare one to join them"@,
            },
    {
        match self {
            ViewError::NoJoin { schema, name, base_schema, base_table, joined_schema, joined_table } => {
                let mut text = concat3("view ", schema.as_str(), ".");
                text.append(name.as_str());
                text.append(": no foreign key links ");
                text.append(base_schema.as_str());
                text.append(".");
                text.append(base_table.as_str());
                text.append(" to ");
                text.append(joined_schema.as_str());
                text.append(".");
                text.append(joined_table.as_str());
                text.append(" \u{2014} declare one to join them");
                text
            },
        }
    }
}

fn first_link<'a>(cols: &'a Vec<Column>, schema: &str, table: &str) -> (found: Option<&'a Column>)
    ensures
        match found {
            Some(c) => find_first(cols@.map_values(|c: Column| c@), links_to(schema@, table@)) == Some(c@),
            None => find_first(cols@.map_values(|c: Column| c@), links_to(schema@, table@)) is None,
        },
{
    let ghost cs = cols@.map_values(|c: Column| c@);
    let ghost p = links_to(schema@, table@);
    let mut i: usize = 0;
    while i < cols.len()
        invariant
            i <= cols.len(),
            cs == cols@.map_values(|c: Column| c@),
            p == links_to(schema@, table@),
            forall|j: int| 0 <= j < i ==> !p(#[trigger] cs[j]),
        decreases cols.len() - i,
    {
        let hit = match &cols[i].foreign_key {
            Some(fk) => str_eq(fk.schema.as_str(), schema) && str_eq(fk.table.as_str(), table),
            None => false,
        };
        assert(hit == p(cs[i as int]));
        if hit {
            proof { lemma_find_first_at(cs, p, i as int); }
            return Some(&cols[i]);
        }
        i = i + 1;
    }
    proof { lemma_find_first_some(cs, p); }
    None
}

/// The `JOIN … ON …` clause linking `base`'s table to `joined`'s, if a
/// foreign key connects them either way.
pub fn resolve_join(base: &ViewColumnItem, joined: &ViewColumnItem, tables: &NamedMap<Table>) -> (clause: Option<String>)
    ensures
        match clause {
            Some(c) => join_clause(tables@, view_column_model(base), view_column_model(joined)) == Some(c@),
            None => join_clause(tables@, view_column_model(base), view_column_model(joined)) is None,
        },
{
    let target = concat3(joined.schema, ".", joined.table);
    let base_key = concat3(base.schema, ".", base.table);
    let via_base = match tables.get(base_key.as_str()) {
        Some(bt) => first_link(&bt.columns, joined.schema, joined.table),
        None => None,
    };
    proof {
        if let Some(bt) = lookup(tables@, base_key@) {
            lemma_find_first_some(bt.columns, links_to(joined.schema@, joined.table@));
        }
        if let Some(jt) = lookup(tables@, target@) {
            lemma_find_first_some(jt.columns, links_to(base.schema@, base.table@));
        }
    }
    match via_base {
        Some(c) => {
            let fk_column = match &c.foreign_key {
                Some(fk) => fk.column.as_str(),
                None => "",
            };
            let mut clause = concat3("JOIN ", target.as_str(), " ON ");
            clause.append(base.table);
            clause.append(".");
            clause.append(c.name.as_str());
            clause.append(" = ");
            clause.append(joined.table);
            clause.append(".");
            clause.append(fk_column);
            Some(clause)
        },
        None => match tables.get(target.as_str()) {
            Some(jt) => match first_link(&jt.columns, base.schema, base.table) {
                Some(c) => {
                    let fk_column = match &c.foreign_key {
                        Some(fk) => fk.column.as_str(),
                        None => "",
                    };
                    let mut clause = concat3("JOIN ", target.as_str(), " ON ");
                    clause.append(joined.table);
                    clause.append(".");
                    clause.append(c.name.as_str());
                    clause.append(" = ");
                    clause.append(base.table);
                    clause.append(".");
                    clause.append(fk_column);
                    Some(clause)
                },
                None => None,
            },
            None => None,
        },
    }
}

fn is_first_of_its_table(cols: &[ViewColumnItem], k: usize) -> (fresh: bool)
    requires
        0 < k < cols@.len(),
    ensures
        fresh == first_of_its_table(cols@.map_values(|c: ViewColumnItem| view_column_model(&c)), k as int),
{
    let ghost cs = cols@.map_values(|c: ViewColumnItem| view_column_model(&c));
    if str_eq(cols[k].schema, cols[0].schema) && str_eq(cols[k].table, cols[0].table) {
        return false;
    }
    let mut j: usize = 0;
    while j < k
        invariant
            j <= k < cols@.len(),
            cs == cols@.map_values(|c: ViewColumnItem| view_column_model(&c)),
            forall|m: int| 0 <= m < j ==> !(cs[m].schema == cs[k as int].schema && cs[m].table == cs[k as int].table),
        decreases k - j,
    {
        if str_eq(cols[j].schema, cols[k].schema) && str_eq(cols[j].table, cols[k].table) {
            assert(cs[j as int].schema == cs[k as int].schema && cs[j as int].table == cs[k as int].table);
            return false;
        }
        j = j + 1;
    }
    true
}

/// Builds a declared view's SELECT against the declared tables; refused
/// when a further table has no foreign key to the base table (the first
/// such table is named). A view must declare at least one column: the
/// first column's table is the base table.
#[verifier::loop_isolation(false)]
pub fn build_view(item: &ViewItem, tables: &NamedMap<Table>) -> (r: Result<SqlView, ViewError>)
    requires
        view_columns(item).len() > 0,
    ensures
        match r {
            Ok(v) => unjoinable(tables@, view_columns(item)) is None
                && v@ == (SqlViewModel { schema: item.schema@, name: item.name@, definition: view_definition(tables@, item) }),
            Err(ViewError::NoJoin { schema, name, base_schema, base_table, joined_schema, joined_table }) =>
                unjoinable(tables@, view_columns(item)) is Some
                && schema@ == item.schema@ && name@ == item.name@
                && base_schema@ == view_columns(item)[0].schema && base_table@ == view_columns(item)[0].table
                && joined_schema@ == view_columns(item)[unjoinable(tables@, view_columns(item))->0].schema
                && joined_table@ == view_columns(item)[unjoinable(tables@, view_columns(item))->0].table,
        },
{
    let ghost cols = view_columns(item);
    let base = &item.columns[0];
    assert(cols[0] == view_column_model(base));
    let mut selects: Vec<String> = Vec::new();
    let mut i: usize = 0;
    while i < item.columns.len()
        invariant
            i <= item.columns@.len(),
            cols == view_columns(item),
            strings_view(selects@) == cols.map_values(|c: ViewColumnModel| c.table + "."@ + c.column + " AS "@ + c.alias).take(i as int),
        decreases item.columns@.len() - i,
    {
        let c = &item.columns[i];
        let mut s = concat3(c.table, ".", c.column);
        s.append(" AS ");
        s.append(c.alias);
        let ghost sv = s@;
        let ghost before = selects@;
        selects.push(s);
        assert(strings_view(selects@) =~= strings_view(before).push(sv));
        assert(strings_view(selects@) =~= cols.map_values(|c: ViewColumnModel| c.table + "."@ + c.column + " AS "@ + c.alias).take(i + 1));
        i = i + 1;
    }
    assert(cols.map_values(|c: ViewColumnModel| c.table + "."@ + c.column + " AS "@ + c.alias).take(item.columns.len() as int)
        =~= cols.map_values(|c: ViewColumnModel| c.table + "."@ + c.column + " AS "@ + c.alias));
    let select = join_strings(&selects, ", ");
    assert(selects@.map_values(|p: String| p@) =~= strings_view(selects@));
    let mut sql = concat2("SELECT ", select.as_str());
    sql.append(" FROM ");
    sql.append(base.schema);
    sql.append(".");
    sql.append(base.table);
    let ghost head = sql@;
    let ghost ks = super::diff::indices(cols.len());
    let ghost fresh = |k: int| if first_of_its_table(cols, k) { seq![k] } else { seq![] };
    let ghost g = |k: int| " "@ + join_clause(tables@, cols[0], cols[k])->0;
    let ghost bad = |k: int| join_clause(tables@, cols[0], cols[k]) is None;
    let mut k: usize = 1;
    proof {
        assert(!first_of_its_table(cols, 0));
        crate::text::lemma_concat_map_single(0int, fresh);
        assert(ks.take(1) =~= seq![0int]);
        crate::text::lemma_concat_map_single(0int, fresh);
    }
    while k < item.columns.len()
        invariant
            1 <= k <= item.columns@.len(),
            cols == view_columns(item),
            ks == super::diff::indices(cols.len()),
            cols[0] == view_column_model(base),
            sql@ == head + concat_map(concat_map(ks.take(k as int), fresh), g),
            find_first(concat_map(ks.take(k as int), fresh), bad) is None,
        decreases item.columns@.len() - k,
    {
        let ghost before_pos = concat_map(ks.take(k as int), fresh);
        proof { lemma_concat_map_step(ks, fresh, k as int); }
        assert(ks[k as int] == k);
        if is_first_of_its_table(item.columns, k) {
            let joined = &item.columns[k];
            assert(cols[k as int] == view_column_model(joined));
            match resolve_join(base, joined, tables) {
                Some(clause) => {
                    sql.append(" ");
                    sql.append(clause.as_str());
                    proof {
                        crate::text::lemma_concat_map_append(before_pos, seq![k as int], g);
                        crate::text::lemma_concat_map_single(k as int, g);
                        lemma_find_first_concat(before_pos, seq![k as int], bad);
                        assert(seq![k as int].drop_first() =~= Seq::<int>::empty());
                        assert(find_first(seq![k as int], bad) is None);
                        assert(concat_map(ks.take(k + 1), fresh) =~= before_pos + seq![k as int]);
                    }
                    assert(sql@ =~= head + concat_map(concat_map(ks.take(k + 1), fresh), g));
                },
                None => {
                    proof {
                        assert(concat_map(ks.take(k + 1), fresh) =~= before_pos + seq![k as int]);
                        crate::text::lemma_concat_map_append(ks.take(k + 1), ks.skip(k + 1), fresh);
                        assert(ks.take(k + 1) + ks.skip(k + 1) =~= ks);
                        lemma_find_first_concat(before_pos, seq![k as int], bad);
                        lemma_find_first_concat(before_pos + seq![k as int], concat_map(ks.skip(k + 1), fresh), bad);
                        assert(bad(k as int));
                        assert(find_first(seq![k as int], bad) == Some(k as int));
                        assert(unjoinable(tables@, cols) == Some(k as int));
                    }
                    return Err(ViewError::NoJoin {
                        schema: owned(item.schema),
                        name: owned(item.name),
                        base_schema: owned(base.schema),
                        base_table: owned(base.table),
                        joined_schema: owned(joined.schema),
                        joined_table: owned(joined.table),
                    });
                },
            }
        } else {
            assert(concat_map(ks.take(k + 1), fresh) =~= before_pos);
        }
        k = k + 1;
    }
    assert(ks.take(item.columns.len() as int) =~= ks);
    match item.filter {
        Some(f) => {
            sql.append(" WHERE ");
            sql.append(f);
        },
        None => {},
    }
    match item.order_by {
        Some(o) => {
            sql.append(" ORDER BY ");
            sql.append(o);
        },
        None => {},
    }
    proof { reveal_strlit(""); }
    assert(sql@ =~= view_definition(tables@, item));
    Ok(SqlView { schema: owned(item.schema), name: owned(item.name), definition: sql })
}

// ---------------------------------------------------------------------------
// The whole declared schema

pub open spec fn enums_assembled(items: Seq<&EnumItem>) -> Seq<(Seq<char>, EnumTypeModel)>
    decreases items.len(),
{
    if items.len() == 0 {
        seq![]
    } else {
        let e = items.last();
        super::named::insert_entry(enums_assembled(items.drop_last()), e.name@,
            EnumTypeModel { name: e.name@, values: strs_view(e.values@) })
    }
}

pub open spec fn tables_assembled(items: Seq<&TableItem>) -> Seq<(Seq<char>, TableModel)>
    decreases items.len(),
{
    if items.len() == 0 {
        seq![]
    } else {
        let t = items.last();
        super::named::insert_entry(tables_assembled(items.drop_last()), qualify(t.schema@, t.name@), table_item_model(t))
    }
}

/// A view builds against `tables`: it has columns and every further table
/// joins.
pub open spec fn view_builds(tables: Seq<(Seq<char>, TableModel)>, v: &ViewItem) -> bool {
    view_columns(v).len() > 0 && unjoinable(tables, view_columns(v)) is None
}

pub open spec fn views_assembled(tables: Seq<(Seq<char>, TableModel)>, items: Seq<&ViewItem>) -> Seq<(Seq<char>, SqlViewModel)>
    decreases items.len(),
{
    if items.len() == 0 {
        seq![]
    } else {
        let v = items.last();
        super::named::insert_entry(views_assembled(tables, items.drop_last()), qualify(v.schema@, v.name@),
            SqlViewModel { schema: v.schema@, name: v.name@, definition: view_definition(tables, v) })
    }
}

/// Turns the declared enums, tables and views into the schema model: enums
/// keyed by name, tables and views by qualified name, views built against
/// the tables. Refused at the first view that cannot be joined; every view
/// must declare at least one column.
#[verifier::loop_isolation(false)]
pub fn assemble_schema(enums: &Vec<&EnumItem>, tables: &Vec<&TableItem>, views: &Vec<&ViewItem>) -> (r: Result<DatabaseSchema, ViewError>)
    requires
        forall|k: int| 0 <= k < views@.len() ==> view_columns(#[trigger] views@[k]).len() > 0,
    ensures
        match r {
            Ok(s) => s@.enums == enums_assembled(enums@) && s@.tables == tables_assembled(tables@)
                && (forall|k: int| 0 <= k < views@.len() ==> view_builds(tables_assembled(tables@), #[trigger] views@[k]))
                && s@.views == views_assembled(tables_assembled(tables@), views@),
            Err(_) => exists|k: int| 0 <= k < views@.len() && !view_builds(tables_assembled(tables@), #[trigger] views@[k]),
        },
{
    let mut schema = DatabaseSchema::default();
    let mut i: usize = 0;
    while i < enums.len()
        invariant
            i <= enums@.len(),
            schema@.enums == enums_assembled(enums@.take(i as int)),
            schema@.tables.len() == 0,
            schema@.views.len() == 0,
        decreases enums@.len() - i,
    {
        let e = enums[i];
        schema.enums.insert(owned(e.name), EnumType::from(e));
        assert(enums@.take(i + 1).drop_last() =~= enums@.take(i as int));
        i = i + 1;
    }
    assert(enums@.take(enums@.len() as int) =~= enums@);
    let mut i: usize = 0;
    while i < tables.len()
        invariant
            i <= tables@.len(),
            schema@.enums == enums_assembled(enums@),
            schema@.tables == tables_assembled(tables@.take(i as int)),
            schema@.views.len() == 0,
        decreases tables@.len() - i,
    {
        let t = Table::from(tables[i]);
        let key = t.qualified_name();
        schema.tables.insert(key, t);
        assert(tables@.take(i + 1).drop_last() =~= tables@.take(i as int));
        i = i + 1;
    }
    assert(tables@.take(tables@.len() as int) =~= tables@);
    let mut i: usize = 0;
    while i < views.len()
        invariant
            i <= views@.len(),
            schema@.enums == enums_assembled(enums@),
            schema@.tables == tables_assembled(tables@),
            schema@.views == views_assembled(tables_assembled(tables@), views@.take(i as int)),
            forall|k: int| 0 <= k < i ==> view_builds(tables_assembled(tables@), #[trigger] views@[k]),
        decreases views@.len() - i,
    {
        match build_view(views[i], &schema.tables) {
            Ok(view) => {
                let key = view.qualified_name();
                schema.views.insert(key, view);
            },
            Err(e) => {
                assert(!view_builds(tables_assembled(tables@), views@[i as int]));
                return Err(e);
            },
        }
        assert(views@.take(i + 1).drop_last() =~= views@.take(i as int));
        i = i + 1;
    }
    assert(views@.take(views@.len() as int) =~= views@);
    Ok(schema)
}

} // verus!
