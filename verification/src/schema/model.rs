//! The schema model: what the Rust types declare and what a database holds.

use vstd::prelude::*;

use super::named::NamedMap;
use crate::text::{join, join_strings};

verus! {

/// `schema.name`.
pub open spec fn qualify(schema: Seq<char>, name: Seq<char>) -> Seq<char> {
    schema + "."@ + name
}

/// The first element of `s` that satisfies `p`.
pub open spec fn find_first<T>(s: Seq<T>, p: spec_fn(T) -> bool) -> Option<T>
    decreases s.len(),
{
    if s.len() == 0 {
        None
    } else if p(s[0]) {
        Some(s[0])
    } else {
        find_first(s.drop_first(), p)
    }
}

pub proof fn lemma_find_first_some<T>(s: Seq<T>, p: spec_fn(T) -> bool)
    ensures
        find_first(s, p) is Some ==> exists|k: int| 0 <= k < s.len() && s[k] == find_first(s, p)->0 && p(s[k]),
        find_first(s, p) is None ==> forall|k: int| 0 <= k < s.len() ==> !p(s[k]),
    decreases s.len(),
{
    if s.len() > 0 && !p(s[0]) {
        lemma_find_first_some(s.drop_first(), p);
        if find_first(s, p) is Some {
            let k = choose|k: int| 0 <= k < s.drop_first().len() && s.drop_first()[k] == find_first(s, p)->0 && p(s.drop_first()[k]);
            assert(s[k + 1] == s.drop_first()[k]);
        } else {
            assert forall|k: int| 0 <= k < s.len() implies !p(s[k]) by {
                if k > 0 {
                    assert(s[k] == s.drop_first()[k - 1]);
                }
            }
        }
    } else if s.len() > 0 {
        assert(s[0] == find_first(s, p)->0);
    }
}

pub proof fn lemma_find_first_skip<T>(s: Seq<T>, p: spec_fn(T) -> bool, i: int)
    requires
        0 <= i < s.len(),
        !p(s[i]),
    ensures
        find_first(s.skip(i), p) == find_first(s.skip(i + 1), p),
{
    assert(s.skip(i).drop_first() =~= s.skip(i + 1));
}

/// The first element satisfying `p` is the one at `r` when none before it does.
pub proof fn lemma_find_first_at<T>(s: Seq<T>, p: spec_fn(T) -> bool, r: int)
    requires
        0 <= r < s.len(),
        p(s[r]),
        forall|k: int| 0 <= k < r ==> !p(#[trigger] s[k]),
    ensures
        find_first(s, p) == Some(s[r]),
    decreases r,
{
    if r > 0 {
        assert forall|k: int| 0 <= k < r - 1 implies !p(#[trigger] s.drop_first()[k]) by {
            assert(s.drop_first()[k] == s[k + 1]);
        }
        lemma_find_first_at(s.drop_first(), p, r - 1);
    }
}

/// Searching a concatenation: the first part, then the second.
pub proof fn lemma_find_first_concat<T>(a: Seq<T>, b: Seq<T>, p: spec_fn(T) -> bool)
    ensures
        find_first(a + b, p) == (if find_first(a, p) is Some { find_first(a, p) } else { find_first(b, p) }),
    decreases a.len(),
{
    if a.len() == 0 {
        assert(a + b =~= b);
    } else {
        assert((a + b)[0] == a[0]);
        assert((a + b).drop_first() =~= a.drop_first() + b);
        lemma_find_first_concat(a.drop_first(), b, p);
    }
}

pub open spec fn strings_view(v: Seq<String>) -> Seq<Seq<char>> {
    v.map_values(|s: String| s@)
}

pub open spec fn opt_string_view(o: Option<String>) -> Option<Seq<char>> {
    match o {
        Some(s) => Some(s@),
        None => None,
    }
}

/// Copies a list of strings.
pub fn clone_strings(v: &Vec<String>) -> (res: Vec<String>)
    ensures
        res@ == v@,
{
    let mut res: Vec<String> = Vec::new();
    let mut i: usize = 0;
    while i < v.len()
        invariant
            i <= v.len(),
            res@ == v@.take(i as int),
        decreases v.len() - i,
    {
        res.push(v[i].clone());
        assert(res@ =~= v@.take(i + 1));
        i = i + 1;
    }
    assert(v@.take(v.len() as int) =~= v@);
    res
}

pub fn clone_opt_string(o: &Option<String>) -> (res: Option<String>)
    ensures
        res == *o,
{
    match o {
        Some(s) => Some(s.clone()),
        None => None,
    }
}

// ---------------------------------------------------------------------------
// Enum types

#[derive(Debug, Clone, PartialEq, Eq)]
pub struct EnumType {
    pub name: String,
    pub values: Vec<String>,
}

pub struct EnumTypeModel {
    pub name: Seq<char>,
    pub values: Seq<Seq<char>>,
}

impl View for EnumType {
    type V = EnumTypeModel;

    open spec fn view(&self) -> EnumTypeModel {
        EnumTypeModel { name: self.name@, values: strings_view(self.values@) }
    }
}

impl EnumType {
    pub fn duplicate(&self) -> (res: EnumType)
        ensures
            res@ == self@,
    {
        EnumType { name: self.name.clone(), values: clone_strings(&self.values) }
    }
}

// ---------------------------------------------------------------------------
// Referential actions and foreign keys

#[derive(Debug, Clone, Copy, PartialEq, Eq)]
pub enum ReferentialAction {
    NoAction,
    Restrict,
    Cascade,
    SetNull,
    SetDefault,
}

/// The SQL spelling of a referential action.
pub open spec fn action_sql(action: ReferentialAction) -> Seq<char> {
    match action {
        ReferentialAction::NoAction => "NO ACTION"@,
        ReferentialAction::Restrict => "RESTRICT"@,
        ReferentialAction::Cascade => "CASCADE"@,
        ReferentialAction::SetNull => "SET NULL"@,
        ReferentialAction::SetDefault => "SET DEFAULT"@,
    }
}

impl ReferentialAction {
    pub fn to_sql(self) -> (sql: &'static str)
        ensures
            sql@ == action_sql(self),
    {
        match self {
            ReferentialAction::NoAction => "NO ACTION",
            ReferentialAction::Restrict => "RESTRICT",
            ReferentialAction::Cascade => "CASCADE",
            ReferentialAction::SetNull => "SET NULL",
            ReferentialAction::SetDefault => "SET DEFAULT",
        }
    }
}

#[derive(Debug, Clone, PartialEq, Eq)]
pub struct ForeignKey {
    pub schema: String,
    pub table: String,
    pub column: String,
    pub on_update: ReferentialAction,
    pub on_delete: ReferentialAction,
}

pub struct ForeignKeyModel {
    pub schema: Seq<char>,
    pub table: Seq<char>,
    pub column: Seq<char>,
    pub on_update: ReferentialAction,
    pub on_delete: ReferentialAction,
}

impl View for ForeignKey {
    type V = ForeignKeyModel;

    open spec fn view(&self) -> ForeignKeyModel {
        ForeignKeyModel {
            schema: self.schema@,
            table: self.table@,
            column: self.column@,
            on_update: self.on_update,
            on_delete: self.on_delete,
        }
    }
}

impl ForeignKey {
    pub fn duplicate(&self) -> (res: ForeignKey)
        ensures
            res == *self,
    {
        ForeignKey {
            schema: self.schema.clone(),
            table: self.table.clone(),
            column: self.column.clone(),
            on_update: self.on_update,
            on_delete: self.on_delete,
        }
    }
}

// ---------------------------------------------------------------------------
// Columns

#[derive(Debug, Clone, PartialEq, Eq)]
pub struct Column {
    pub name: String,
    pub sql_type: String,
    pub nullable: bool,
    pub primary_key: bool,
    pub unique: bool,
    pub default: Option<String>,
    pub foreign_key: Option<ForeignKey>,
}

pub struct ColumnModel {
    pub name: Seq<char>,
    pub sql_type: Seq<char>,
    pub nullable: bool,
    pub primary_key: bool,
    pub unique: bool,
    pub default: Option<Seq<char>>,
    pub foreign_key: Option<ForeignKeyModel>,
}

pub open spec fn opt_fk_view(o: Option<ForeignKey>) -> Option<ForeignKeyModel> {
    match o {
        Some(fk) => Some(fk@),
        None => None,
    }
}

impl View for Column {
    type V = ColumnModel;

    open spec fn view(&self) -> ColumnModel {
        ColumnModel {
            name: self.name@,
            sql_type: self.sql_type@,
            nullable: self.nullable,
            primary_key: self.primary_key,
            unique: self.unique,
            default: opt_string_view(self.default),
            foreign_key: opt_fk_view(self.foreign_key),
        }
    }
}

impl Column {
    pub fn duplicate(&self) -> (res: Column)
        ensures
            res == *self,
    {
        Column {
            name: self.name.clone(),
            sql_type: self.sql_type.clone(),
            nullable: self.nullable,
            primary_key: self.primary_key,
            unique: self.unique,
            default: clone_opt_string(&self.default),
            foreign_key: match &self.foreign_key {
                Some(fk) => Some(fk.duplicate()),
                None => None,
            },
        }
    }
}

// ---------------------------------------------------------------------------
// Constraints and indexes

/// A named table-level constraint. The name is the diff key, so it must be
/// stable.
#[derive(Debug, Clone, PartialEq, Eq)]
pub struct Constraint {
    pub name: String,
    pub kind: ConstraintKind,
}

#[derive(Debug, Clone, PartialEq, Eq)]
pub enum ConstraintKind {
    Unique { columns: Vec<String> },
    Check { expression: String },
}

pub enum ConstraintKindModel {
    Unique { columns: Seq<Seq<char>> },
    Check { expression: Seq<char> },
}

pub struct ConstraintModel {
    pub name: Seq<char>,
    pub kind: ConstraintKindModel,
}

impl View for ConstraintKind {
    type V = ConstraintKindModel;

    open spec fn view(&self) -> ConstraintKindModel {
        match self {
            ConstraintKind::Unique { columns } => ConstraintKindModel::Unique {
                columns: strings_view(columns@),
            },
            ConstraintKind::Check { expression } => ConstraintKindModel::Check {
                expression: expression@,
            },
        }
    }
}

impl View for Constraint {
    type V = ConstraintModel;

    open spec fn view(&self) -> ConstraintModel {
        ConstraintModel { name: self.name@, kind: self.kind@ }
    }
}

/// The body of the `ADD CONSTRAINT <name> ...` clause.
pub open spec fn constraint_definition(kind: ConstraintKindModel) -> Seq<char> {
    match kind {
        ConstraintKindModel::Unique { columns } => "UNIQUE ("@ + join(columns, ", "@) + ")"@,
        ConstraintKindModel::Check { expression } => "CHECK ("@ + expression + ")"@,
    }
}

/// Whether two string lists hold the same strings in the same order.
pub fn strings_equal(a: &Vec<String>, b: &Vec<String>) -> (res: bool)
    ensures
        res == (strings_view(a@) == strings_view(b@)),
{
    if a.len() != b.len() {
        assert(strings_view(a@).len() != strings_view(b@).len());
        return false;
    }
    let mut i: usize = 0;
    while i < a.len()
        invariant
            a.len() == b.len(),
            i <= a.len(),
            forall|j: int| 0 <= j < i ==> a@[j]@ == b@[j]@,
        decreases a.len() - i,
    {
        if a[i] != b[i] {
            assert(strings_view(a@)[i as int] != strings_view(b@)[i as int]);
            return false;
        }
        i = i + 1;
    }
    assert(strings_view(a@) =~= strings_view(b@));
    true
}

pub fn opt_strings_equal(a: &Option<String>, b: &Option<String>) -> (res: bool)
    ensures
        res == (opt_string_view(*a) == opt_string_view(*b)),
{
    match (a, b) {
        (Some(x), Some(y)) => *x == *y,
        (None, None) => true,
        _ => false,
    }
}

impl ConstraintKind {
    /// Whether two constraint kinds define the same constraint.
    pub fn same_as(&self, other: &ConstraintKind) -> (res: bool)
        ensures
            res == (self@ == other@),
    {
        match (self, other) {
            (ConstraintKind::Unique { columns: a }, ConstraintKind::Unique { columns: b }) => strings_equal(a, b),
            (ConstraintKind::Check { expression: a }, ConstraintKind::Check { expression: b }) => *a == *b,
            _ => false,
        }
    }

    pub fn duplicate(&self) -> (res: ConstraintKind)
        ensures
            res@ == self@,
    {
        match self {
            ConstraintKind::Unique { columns } => ConstraintKind::Unique { columns: clone_strings(columns) },
            ConstraintKind::Check { expression } => ConstraintKind::Check { expression: expression.clone() },
        }
    }
}

impl Constraint {
    /// The body of the `ADD CONSTRAINT <name> ...` clause.
    pub fn definition(&self) -> (sql: String)
        ensures
            sql@ == constraint_definition(self.kind@),
    {
        match &self.kind {
            ConstraintKind::Unique { columns } => {
                let mut sql = String::from_str("UNIQUE (");
                let joined = join_strings(columns, ", ");
                sql.append(joined.as_str());
                sql.append(")");
                sql
            },
            ConstraintKind::Check { expression } => {
                let mut sql = String::from_str("CHECK (");
                sql.append(expression.as_str());
                sql.append(")");
                sql
            },
        }
    }

    pub fn duplicate(&self) -> (res: Constraint)
        ensures
            res@ == self@,
    {
        Constraint { name: self.name.clone(), kind: self.kind.duplicate() }
    }
}

/// A standalone index. `predicate` makes it partial; `unique` makes it enforce
/// uniqueness over the rows the predicate selects.
#[derive(Debug, Clone, PartialEq, Eq)]
pub struct Index {
    pub name: String,
    pub columns: Vec<String>,
    pub unique: bool,
    pub predicate: Option<String>,
}

pub struct IndexModel {
    pub name: Seq<char>,
    pub columns: Seq<Seq<char>>,
    pub unique: bool,
    pub predicate: Option<Seq<char>>,
}

impl View for Index {
    type V = IndexModel;

    open spec fn view(&self) -> IndexModel {
        IndexModel {
            name: self.name@,
            columns: strings_view(self.columns@),
            unique: self.unique,
            predicate: opt_string_view(self.predicate),
        }
    }
}

impl Index {
    /// Whether two indexes are identical.
    pub fn same_as(&self, other: &Index) -> (res: bool)
        ensures
            res == (self@ == other@),
    {
        self.name == other.name && strings_equal(&self.columns, &other.columns)
            && self.unique == other.unique && opt_strings_equal(&self.predicate, &other.predicate)
    }

    pub fn duplicate(&self) -> (res: Index)
        ensures
            res@ == self@,
    {
        Index {
            name: self.name.clone(),
            columns: clone_strings(&self.columns),
            unique: self.unique,
            predicate: clone_opt_string(&self.predicate),
        }
    }
}

// ---------------------------------------------------------------------------
// Tables

#[derive(Debug, Default, Clone, PartialEq, Eq)]
pub struct Table {
    pub schema: String,
    pub name: String,
    pub columns: Vec<Column>,
    /// Table-level constraints: multi-column uniques and checks.
    pub constraints: Vec<Constraint>,
    /// Standalone indexes, including partial ones.
    pub indexes: Vec<Index>,
}

pub struct TableModel {
    pub schema: Seq<char>,
    pub name: Seq<char>,
    pub columns: Seq<ColumnModel>,
    pub constraints: Seq<ConstraintModel>,
    pub indexes: Seq<IndexModel>,
}

impl View for Table {
    type V = TableModel;

    open spec fn view(&self) -> TableModel {
        TableModel {
            schema: self.schema@,
            name: self.name@,
            columns: self.columns@.map_values(|c: Column| c@),
            constraints: self.constraints@.map_values(|c: Constraint| c@),
            indexes: self.indexes@.map_values(|i: Index| i@),
        }
    }
}

/// The first column named `name`.
pub open spec fn column_named(columns: Seq<ColumnModel>, name: Seq<char>) -> Option<ColumnModel> {
    find_first(columns, |c: ColumnModel| c.name == name)
}

/// The first constraint named `name`.
pub open spec fn constraint_named(constraints: Seq<ConstraintModel>, name: Seq<char>) -> Option<ConstraintModel> {
    find_first(constraints, |c: ConstraintModel| c.name == name)
}

/// The first index named `name`.
pub open spec fn index_named(indexes: Seq<IndexModel>, name: Seq<char>) -> Option<IndexModel> {
    find_first(indexes, |i: IndexModel| i.name == name)
}

pub open spec fn opt_column_view(o: Option<&Column>) -> Option<ColumnModel> {
    match o {
        Some(c) => Some(c@),
        None => None,
    }
}

pub open spec fn opt_constraint_view(o: Option<&Constraint>) -> Option<ConstraintModel> {
    match o {
        Some(c) => Some(c@),
        None => None,
    }
}

pub open spec fn opt_index_view(o: Option<&Index>) -> Option<IndexModel> {
    match o {
        Some(i) => Some(i@),
        None => None,
    }
}

/// Copies a list of columns.
pub fn clone_columns(v: &Vec<Column>) -> (res: Vec<Column>)
    ensures
        res@ == v@,
{
    let mut res: Vec<Column> = Vec::new();
    let mut i: usize = 0;
    while i < v.len()
        invariant
            i <= v.len(),
            res@ == v@.take(i as int),
        decreases v.len() - i,
    {
        res.push(v[i].duplicate());
        assert(res@ =~= v@.take(i + 1));
        i = i + 1;
    }
    assert(v@.take(v.len() as int) =~= v@);
    res
}

pub fn clone_constraints(v: &Vec<Constraint>) -> (res: Vec<Constraint>)
    ensures
        res@.map_values(|c: Constraint| c@) == v@.map_values(|c: Constraint| c@),
{
    let mut res: Vec<Constraint> = Vec::new();
    let mut i: usize = 0;
    while i < v.len()
        invariant
            i <= v.len(),
            res@.len() == i,
            forall|j: int| 0 <= j < i ==> res@[j]@ == v@[j]@,
        decreases v.len() - i,
    {
        res.push(v[i].duplicate());
        i = i + 1;
    }
    assert(res@.map_values(|c: Constraint| c@) =~= v@.map_values(|c: Constraint| c@));
    res
}

pub fn clone_indexes(v: &Vec<Index>) -> (res: Vec<Index>)
    ensures
        res@.map_values(|x: Index| x@) == v@.map_values(|x: Index| x@),
{
    let mut res: Vec<Index> = Vec::new();
    let mut i: usize = 0;
    while i < v.len()
        invariant
            i <= v.len(),
            res@.len() == i,
            forall|j: int| 0 <= j < i ==> res@[j]@ == v@[j]@,
        decreases v.len() - i,
    {
        res.push(v[i].duplicate());
        i = i + 1;
    }
    assert(res@.map_values(|x: Index| x@) =~= v@.map_values(|x: Index| x@));
    res
}

impl Table {
    pub fn qualified_name(&self) -> (name: String)
        ensures
            name@ == qualify(self.schema@, self.name@),
    {
        let mut name = self.schema.clone();
        name.append(".");
        name.append(self.name.as_str());
        name
    }

    pub fn reference(&self) -> (table: TableReference)
        ensures
            table@ == (TableReferenceModel { schema: self.schema@, name: self.name@ }),
    {
        TableReference { schema: self.schema.clone(), name: self.name.clone() }
    }

    /// The first column named `name`.
    pub fn column(&self, name: &str) -> (found: Option<&Column>)
        ensures
            opt_column_view(found) == column_named(self@.columns, name@),
    {
        let ghost cols = self@.columns;
        let ghost p = |c: ColumnModel| c.name == name@;
        let mut i: usize = 0;
        assert(cols.skip(0) =~= cols);
        while i < self.columns.len()
            invariant
                i <= self.columns.len(),
                cols == self@.columns,
                p == (|c: ColumnModel| c.name == name@),
                find_first(cols, p) == find_first(cols.skip(i as int), p),
            decreases self.columns.len() - i,
        {
            if crate::text::str_eq(self.columns[i].name.as_str(), name) {
                assert(cols.skip(i as int)[0] == cols[i as int]);
                return Some(&self.columns[i]);
            }
            proof { lemma_find_first_skip(cols, p, i as int); }
            i = i + 1;
        }
        None
    }

    /// The first constraint named `name`.
    pub fn constraint(&self, name: &str) -> (found: Option<&Constraint>)
        ensures
            opt_constraint_view(found) == constraint_named(self@.constraints, name@),
    {
        let ghost cs = self@.constraints;
        let ghost p = |c: ConstraintModel| c.name == name@;
        let mut i: usize = 0;
        assert(cs.skip(0) =~= cs);
        while i < self.constraints.len()
            invariant
                i <= self.constraints.len(),
                cs == self@.constraints,
                p == (|c: ConstraintModel| c.name == name@),
                find_first(cs, p) == find_first(cs.skip(i as int), p),
            decreases self.constraints.len() - i,
        {
            if crate::text::str_eq(self.constraints[i].name.as_str(), name) {
                assert(cs.skip(i as int)[0] == cs[i as int]);
                return Some(&self.constraints[i]);
            }
            proof { lemma_find_first_skip(cs, p, i as int); }
            i = i + 1;
        }
        None
    }

    /// The first index named `name`.
    pub fn index(&self, name: &str) -> (found: Option<&Index>)
        ensures
            opt_index_view(found) == index_named(self@.indexes, name@),
    {
        let ghost xs = self@.indexes;
        let ghost p = |x: IndexModel| x.name == name@;
        let mut i: usize = 0;
        assert(xs.skip(0) =~= xs);
        while i < self.indexes.len()
            invariant
                i <= self.indexes.len(),
                xs == self@.indexes,
                p == (|x: IndexModel| x.name == name@),
                find_first(xs, p) == find_first(xs.skip(i as int), p),
            decreases self.indexes.len() - i,
        {
            if crate::text::str_eq(self.indexes[i].name.as_str(), name) {
                assert(xs.skip(i as int)[0] == xs[i as int]);
                return Some(&self.indexes[i]);
            }
            proof { lemma_find_first_skip(xs, p, i as int); }
            i = i + 1;
        }
        None
    }

    pub fn duplicate(&self) -> (res: Table)
        ensures
            res@ == self@,
    {
        Table {
            schema: self.schema.clone(),
            name: self.name.clone(),
            columns: clone_columns(&self.columns),
            constraints: clone_constraints(&self.constraints),
            indexes: clone_indexes(&self.indexes),
        }
    }
}

/// A lightweight handle to a table.
#[derive(Debug, Clone, PartialEq, Eq)]
pub struct TableReference {
    pub schema: String,
    pub name: String,
}

pub struct TableReferenceModel {
    pub schema: Seq<char>,
    pub name: Seq<char>,
}

impl View for TableReference {
    type V = TableReferenceModel;

    open spec fn view(&self) -> TableReferenceModel {
        TableReferenceModel { schema: self.schema@, name: self.name@ }
    }
}

impl TableReference {
    pub fn qualified_name(&self) -> (name: String)
        ensures
            name@ == qualify(self.schema@, self.name@),
    {
        let mut name = self.schema.clone();
        name.append(".");
        name.append(self.name.as_str());
        name
    }

    pub fn duplicate(&self) -> (res: TableReference)
        ensures
            res == *self,
    {
        TableReference { schema: self.schema.clone(), name: self.name.clone() }
    }
}

// ---------------------------------------------------------------------------
// Views

/// A read-only database view. `definition` is the raw SELECT body, diffed as an
/// opaque string.
#[derive(Debug, Clone, PartialEq, Eq)]
pub struct SqlView {
    pub schema: String,
    pub name: String,
    pub definition: String,
}

pub struct SqlViewModel {
    pub schema: Seq<char>,
    pub name: Seq<char>,
    pub definition: Seq<char>,
}

impl View for SqlView {
    type V = SqlViewModel;

    open spec fn view(&self) -> SqlViewModel {
        SqlViewModel { schema: self.schema@, name: self.name@, definition: self.definition@ }
    }
}

impl SqlView {
    pub fn qualified_name(&self) -> (name: String)
        ensures
            name@ == qualify(self.schema@, self.name@),
    {
        let mut name = self.schema.clone();
        name.append(".");
        name.append(self.name.as_str());
        name
    }

    pub fn reference(&self) -> (view: ViewReference)
        ensures
            view@ == (ViewReferenceModel { schema: self.schema@, name: self.name@ }),
    {
        ViewReference { schema: self.schema.clone(), name: self.name.clone() }
    }

    pub fn duplicate(&self) -> (res: SqlView)
        ensures
            res == *self,
    {
        SqlView { schema: self.schema.clone(), name: self.name.clone(), definition: self.definition.clone() }
    }
}

/// A lightweight handle to a view.
#[derive(Debug, Clone, PartialEq, Eq)]
pub struct ViewReference {
    pub schema: String,
    pub name: String,
}

pub struct ViewReferenceModel {
    pub schema: Seq<char>,
    pub name: Seq<char>,
}

impl View for ViewReference {
    type V = ViewReferenceModel;

    open spec fn view(&self) -> ViewReferenceModel {
        ViewReferenceModel { schema: self.schema@, name: self.name@ }
    }
}

impl ViewReference {
    pub fn qualified_name(&self) -> (name: String)
        ensures
            name@ == qualify(self.schema@, self.name@),
    {
        let mut name = self.schema.clone();
        name.append(".");
        name.append(self.name.as_str());
        name
    }
}

// ---------------------------------------------------------------------------
// The whole schema

/// The full database schema: enums, tables and views, each keyed by its
/// qualified name and iterated in key order.
pub struct DatabaseSchema {
    pub enums: NamedMap<EnumType>,
    pub tables: NamedMap<Table>,
    pub views: NamedMap<SqlView>,
}

pub struct DatabaseSchemaModel {
    pub enums: Seq<(Seq<char>, EnumTypeModel)>,
    pub tables: Seq<(Seq<char>, TableModel)>,
    pub views: Seq<(Seq<char>, SqlViewModel)>,
}

impl View for DatabaseSchema {
    type V = DatabaseSchemaModel;

    open spec fn view(&self) -> DatabaseSchemaModel {
        DatabaseSchemaModel { enums: self.enums@, tables: self.tables@, views: self.views@ }
    }
}

impl Default for DatabaseSchema {
    fn default() -> (schema: Self)
        ensures
            schema@.enums.len() == 0,
            schema@.tables.len() == 0,
            schema@.views.len() == 0,
    {
        DatabaseSchema { enums: NamedMap::new(), tables: NamedMap::new(), views: NamedMap::new() }
    }
}

} // verus!
