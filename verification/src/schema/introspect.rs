//! Building the schema model from catalog rows: the rows the catalog
//! queries return, folded into a [`DatabaseSchema`] in the same spelling the
//! declared types use, so the two can be diffed.

use vstd::prelude::*;

use super::model::{
    clone_strings, qualify, strings_view, Column, ColumnModel, Constraint, ConstraintKind, ConstraintKindModel,
    ConstraintModel, DatabaseSchema, DatabaseSchemaModel, EnumType, EnumTypeModel, ForeignKey, ForeignKeyModel,
    Index, IndexModel, ReferentialAction, SqlView, SqlViewModel, Table, TableModel, opt_string_view,
};
use super::named::{insert_entry, key_position, lookup, NamedMap};
use crate::migrate::defaults::{strip_casts, without_casts};
use crate::text::{concat3, owned, str_eq, trim, trimmed};

verus! {

/// An entry replaced in place when `key` is present, inserted otherwise.
pub open spec fn upsert<T>(s: Seq<(Seq<char>, T)>, key: Seq<char>, value: T) -> Seq<(Seq<char>, T)> {
    match key_position(s, key) {
        Some(i) => s.update(i, (s[i].0, value)),
        None => insert_entry(s, key, value),
    }
}

/// An entry replaced in place when `key` is present; nothing otherwise.
pub open spec fn update_at<T>(s: Seq<(Seq<char>, T)>, key: Seq<char>, value: T) -> Seq<(Seq<char>, T)> {
    match key_position(s, key) {
        Some(i) => s.update(i, (s[i].0, value)),
        None => s,
    }
}

fn upsert_value<V: View>(map: &mut NamedMap<V>, key: String, value: V)
    ensures
        final(map)@ == upsert(old(map)@, key@, value@),
{
    match map.position(key.as_str()) {
        Some(i) => map.set_value(i, value),
        None => map.insert(key, value),
    }
}

// ---------------------------------------------------------------------------
// Enums

/// One enum label, as the catalog lists them in sort order.
pub struct EnumRow {
    pub schema_name: String,
    pub enum_name: String,
    pub label: String,
}

pub struct EnumRowModel {
    pub schema_name: Seq<char>,
    pub enum_name: Seq<char>,
    pub label: Seq<char>,
}

impl View for EnumRow {
    type V = EnumRowModel;

    open spec fn view(&self) -> EnumRowModel {
        EnumRowModel { schema_name: self.schema_name@, enum_name: self.enum_name@, label: self.label@ }
    }
}

/// The enums after one label row: the label is appended to its enum,
/// created empty when first seen.
pub open spec fn enum_row_step(enums: Seq<(Seq<char>, EnumTypeModel)>, r: EnumRowModel) -> Seq<(Seq<char>, EnumTypeModel)> {
    let name = qualify(r.schema_name, r.enum_name);
    let e = match lookup(enums, name) {
        Some(e) => e,
        None => EnumTypeModel { name, values: seq![] },
    };
    upsert(enums, name, EnumTypeModel { name: e.name, values: e.values.push(r.label) })
}

pub open spec fn enum_rows_applied(enums: Seq<(Seq<char>, EnumTypeModel)>, rows: Seq<EnumRowModel>) -> Seq<(Seq<char>, EnumTypeModel)>
    decreases rows.len(),
{
    if rows.len() == 0 {
        enums
    } else {
        enum_row_step(enum_rows_applied(enums, rows.drop_last()), rows.last())
    }
}

pub open spec fn rows_view<R: View>(rows: Seq<R>) -> Seq<R::V> {
    rows.map_values(|r: R| r@)
}

/// Folds enum label rows into the schema's enums.
#[verifier::loop_isolation(false)]
pub fn apply_enum_rows(database: &mut DatabaseSchema, rows: &Vec<EnumRow>)
    ensures
        final(database)@ == (DatabaseSchemaModel {
            enums: enum_rows_applied(old(database)@.enums, rows_view(rows@)),
            ..old(database)@
        }),
{
    let ghost rs = rows_view(rows@);
    let mut i: usize = 0;
    while i < rows.len()
        invariant
            i <= rows.len(),
            rs == rows_view(rows@),
            database@ == (DatabaseSchemaModel { enums: enum_rows_applied(old(database)@.enums, rs.take(i as int)), ..old(database)@ }),
        decreases rows.len() - i,
    {
        let r = &rows[i];
        let name = concat3(r.schema_name.as_str(), ".", r.enum_name.as_str());
        let mut e = match database.enums.get(name.as_str()) {
            Some(e) => e.duplicate(),
            None => EnumType { name: name.clone(), values: Vec::new() },
        };
        let ghost prev = database@.enums;
        let ghost before = e@;
        assert(before == match lookup(prev, name@) {
            Some(x) => x,
            None => EnumTypeModel { name: name@, values: seq![] },
        }) by {
            if lookup(prev, name@) is None {
                assert(before.values =~= Seq::<Seq<char>>::empty());
            }
        }
        e.values.push(r.label.clone());
        assert(e@.values =~= before.values.push(r@.label));
        upsert_value(&mut database.enums, name, e);
        assert(database@.enums == enum_row_step(prev, r@));
        assert(rs.take(i + 1).drop_last() =~= rs.take(i as int));
        assert(rs[i as int] == r@);
        proof {
            let old_e = lookup(enum_rows_applied(old(database)@.enums, rs.take(i as int)), qualify(r@.schema_name, r@.enum_name));
        }
        i = i + 1;
    }
    assert(rs.take(rows.len() as int) =~= rs);
}

// ---------------------------------------------------------------------------
// Columns

/// One column of a base table, in ordinal order.
pub struct ColumnRow {
    pub schema_name: String,
    pub table_name: String,
    pub column_name: String,
    pub is_nullable: String,
    pub column_default: Option<String>,
    pub udt_schema: String,
    pub udt_name: String,
}

pub struct ColumnRowModel {
    pub schema_name: Seq<char>,
    pub table_name: Seq<char>,
    pub column_name: Seq<char>,
    pub is_nullable: Seq<char>,
    pub column_default: Option<Seq<char>>,
    pub udt_schema: Seq<char>,
    pub udt_name: Seq<char>,
}

impl View for ColumnRow {
    type V = ColumnRowModel;

    open spec fn view(&self) -> ColumnRowModel {
        ColumnRowModel {
            schema_name: self.schema_name@,
            table_name: self.table_name@,
            column_name: self.column_name@,
            is_nullable: self.is_nullable@,
            column_default: opt_string_view(self.column_default),
            udt_schema: self.udt_schema@,
            udt_name: self.udt_name@,
        }
    }
}

/// The spelling the declared types use for a built-in type.
pub open spec fn builtin_enum_name(udt: Seq<char>) -> Seq<char> {
    if udt == "bool"@ {
        "boolean"@
    } else if udt == "float4"@ {
        "real"@
    } else if udt == "float8"@ {
        "double precision"@
    } else {
        udt
    }
}

/// Maps a built-in PostgreSQL type name to the spelling the declared
/// types emit, so the two compare equal.
pub fn rust_enum_name(udt_name: &str) -> (name: String)
    ensures
        name@ == builtin_enum_name(udt_name@),
{
    if str_eq(udt_name, "bool") {
        owned("boolean")
    } else if str_eq(udt_name, "float4") {
        owned("real")
    } else if str_eq(udt_name, "float8") {
        owned("double precision")
    } else {
        owned(udt_name)
    }
}

pub open spec fn column_of_row(r: ColumnRowModel) -> ColumnModel {
    ColumnModel {
        name: r.column_name,
        sql_type: if r.udt_schema == "pg_catalog"@ { builtin_enum_name(r.udt_name) } else { qualify(r.udt_schema, r.udt_name) },
        nullable: r.is_nullable == "YES"@,
        primary_key: false,
        unique: false,
        default: match r.column_default {
            Some(v) => Some(trim(without_casts(v))),
            None => None,
        },
        foreign_key: None,
    }
}

pub open spec fn empty_table(schema: Seq<char>, name: Seq<char>) -> TableModel {
    TableModel { schema, name, columns: seq![], constraints: seq![], indexes: seq![] }
}

/// The tables after one column row: the column is appended to its table,
/// created empty when first seen.
pub open spec fn column_row_step(tables: Seq<(Seq<char>, TableModel)>, r: ColumnRowModel) -> Seq<(Seq<char>, TableModel)> {
    let key = qualify(r.schema_name, r.table_name);
    let t = match lookup(tables, key) {
        Some(t) => t,
        None => empty_table(r.schema_name, r.table_name),
    };
    upsert(tables, key, TableModel { columns: t.columns.push(column_of_row(r)), ..t })
}

pub open spec fn column_rows_applied(tables: Seq<(Seq<char>, TableModel)>, rows: Seq<ColumnRowModel>) -> Seq<(Seq<char>, TableModel)>
    decreases rows.len(),
{
    if rows.len() == 0 {
        tables
    } else {
        column_row_step(column_rows_applied(tables, rows.drop_last()), rows.last())
    }
}

fn column_from_row(r: &ColumnRow) -> (c: Column)
    ensures
        c@ == column_of_row(r@),
{
    let sql_type = if str_eq(r.udt_schema.as_str(), "pg_catalog") {
        rust_enum_name(r.udt_name.as_str())
    } else {
        concat3(r.udt_schema.as_str(), ".", r.udt_name.as_str())
    };
    let default = match &r.column_default {
        Some(v) => Some(trimmed(strip_casts(v.as_str()).as_str())),
        None => None,
    };
    Column {
        name: r.column_name.clone(),
        sql_type,
        nullable: str_eq(r.is_nullable.as_str(), "YES"),
        primary_key: false,
        unique: false,
        default,
        foreign_key: None,
    }
}

/// Folds catalog column rows into the schema's tables.
#[verifier::loop_isolation(false)]
pub fn apply_column_rows(database: &mut DatabaseSchema, rows: &Vec<ColumnRow>)
    ensures
        final(database)@ == (DatabaseSchemaModel {
            tables: column_rows_applied(old(database)@.tables, rows_view(rows@)),
            ..old(database)@
        }),
{
    let ghost rs = rows_view(rows@);
    let mut i: usize = 0;
    while i < rows.len()
        invariant
            i <= rows.len(),
            rs == rows_view(rows@),
            database@ == (DatabaseSchemaModel { tables: column_rows_applied(old(database)@.tables, rs.take(i as int)), ..old(database)@ }),
        decreases rows.len() - i,
    {
        let r = &rows[i];
        let key = concat3(r.schema_name.as_str(), ".", r.table_name.as_str());
        let mut t = match database.tables.get(key.as_str()) {
            Some(t) => t.duplicate(),
            None => Table {
                schema: r.schema_name.clone(),
                name: r.table_name.clone(),
                columns: Vec::new(),
                constraints: Vec::new(),
                indexes: Vec::new(),
            },
        };
        let ghost prev = database@.tables;
        let ghost before = t@;
        assert(before == match lookup(prev, key@) {
            Some(x) => x,
            None => empty_table(r@.schema_name, r@.table_name),
        }) by {
            if lookup(prev, key@) is None {
                assert(before.columns =~= Seq::<ColumnModel>::empty());
                assert(before.constraints =~= Seq::<ConstraintModel>::empty());
                assert(before.indexes =~= Seq::<IndexModel>::empty());
            }
        }
        t.columns.push(column_from_row(r));
        assert(t@.columns =~= before.columns.push(column_of_row(r@)));
        upsert_value(&mut database.tables, key, t);
        assert(database@.tables == column_row_step(prev, r@));
        assert(rs.take(i + 1).drop_last() =~= rs.take(i as int));
        assert(rs[i as int] == r@);
        i = i + 1;
    }
    assert(rs.take(rows.len() as int) =~= rs);
}

// ---------------------------------------------------------------------------
// Constraints

/// One primary key, unique, foreign key or check constraint.
pub struct ConstraintRow {
    pub schema_name: String,
    pub table_name: String,
    pub constraint_name: String,
    /// `p`, `u`, `f` or `c`.
    pub constraint_type: String,
    pub columns: Vec<String>,
    pub foreign_schema: String,
    pub foreign_table: String,
    pub foreign_columns: Vec<String>,
    pub on_update: String,
    pub on_delete: String,
    pub check_expression: Option<String>,
}

pub struct ConstraintRowModel {
    pub schema_name: Seq<char>,
    pub table_name: Seq<char>,
    pub constraint_name: Seq<char>,
    pub constraint_type: Seq<char>,
    pub columns: Seq<Seq<char>>,
    pub foreign_schema: Seq<char>,
    pub foreign_table: Seq<char>,
    pub foreign_columns: Seq<Seq<char>>,
    pub on_update: Seq<char>,
    pub on_delete: Seq<char>,
    pub check_expression: Option<Seq<char>>,
}

impl View for ConstraintRow {
    type V = ConstraintRowModel;

    open spec fn view(&self) -> ConstraintRowModel {
        ConstraintRowModel {
            schema_name: self.schema_name@,
            table_name: self.table_name@,
            constraint_name: self.constraint_name@,
            constraint_type: self.constraint_type@,
            columns: strings_view(self.columns@),
            foreign_schema: self.foreign_schema@,
            foreign_table: self.foreign_table@,
            foreign_columns: strings_view(self.foreign_columns@),
            on_update: self.on_update@,
            on_delete: self.on_delete@,
            check_expression: opt_string_view(self.check_expression),
        }
    }
}

/// The catalog's one-letter referential action codes.
pub open spec fn action_of_code(code: Seq<char>) -> ReferentialAction {
    if code == "r"@ {
        ReferentialAction::Restrict
    } else if code == "c"@ {
        ReferentialAction::Cascade
    } else if code == "n"@ {
        ReferentialAction::SetNull
    } else if code == "d"@ {
        ReferentialAction::SetDefault
    } else {
        ReferentialAction::NoAction
    }
}

pub fn referential_action(code: &str) -> (action: ReferentialAction)
    ensures
        action == action_of_code(code@),
{
    if str_eq(code, "r") {
        ReferentialAction::Restrict
    } else if str_eq(code, "c") {
        ReferentialAction::Cascade
    } else if str_eq(code, "n") {
        ReferentialAction::SetNull
    } else if str_eq(code, "d") {
        ReferentialAction::SetDefault
    } else {
        ReferentialAction::NoAction
    }
}

/// The position of the first column named `name`.
pub open spec fn first_named(cols: Seq<ColumnModel>, name: Seq<char>) -> Option<int> {
    if exists|i: int| 0 <= i < cols.len() && cols[i].name == name && forall|j: int| 0 <= j < i ==> cols[j].name != name {
        Some(choose|i: int| 0 <= i < cols.len() && cols[i].name == name && forall|j: int| 0 <= j < i ==> cols[j].name != name)
    } else {
        None
    }
}

pub fn column_index(cols: &Vec<Column>, name: &str) -> (found: Option<usize>)
    ensures
        match found {
            Some(i) => first_named(cols@.map_values(|c: Column| c@), name@) == Some(i as int) && i < cols@.len(),
            None => first_named(cols@.map_values(|c: Column| c@), name@) is None,
        },
{
    let ghost cs = cols@.map_values(|c: Column| c@);
    let mut i: usize = 0;
    while i < cols.len()
        invariant
            i <= cols.len(),
            cs == cols@.map_values(|c: Column| c@),
            forall|j: int| 0 <= j < i ==> cs[j].name != name@,
        decreases cols.len() - i,
    {
        if str_eq(cols[i].name.as_str(), name) {
            assert(cs[i as int].name == name@);
            assert(first_named(cs, name@) == Some(i as int)) by {
                let w = choose|w: int| 0 <= w < cs.len() && cs[w].name == name@ && forall|j: int| 0 <= j < w ==> cs[j].name != name@;
                if w < i { assert(cs[w].name != name@); }
                if i < w { assert(cs[i as int].name != name@); }
            }
            return Some(i);
        }
        i = i + 1;
    }
    None
}

/// The columns with the first one named each of `names` marked primary.
pub open spec fn mark_primary(cols: Seq<ColumnModel>, names: Seq<Seq<char>>) -> Seq<ColumnModel>
    decreases names.len(),
{
    if names.len() == 0 {
        cols
    } else {
        let marked = mark_primary(cols, names.drop_last());
        match first_named(marked, names.last()) {
            Some(i) => marked.update(i, ColumnModel { primary_key: true, ..marked[i] }),
            None => marked,
        }
    }
}

/// The name a single-column unique constraint gets when declared on the
/// column itself.
pub open spec fn inline_unique_name(table: Seq<char>, column: Seq<char>) -> Seq<char> {
    table + "_"@ + column + "_key"@
}

/// A table after one of its constraint rows: a primary key marks its
/// columns; a unique constraint on one column named as the column's own
/// marks the column unique, any other becomes a table constraint; a foreign
/// key over one column lands on that column; a check becomes a table
/// constraint. Rows a table cannot hold leave it as it is.
pub open spec fn constraint_row_applied(t: TableModel, r: ConstraintRowModel) -> TableModel {
    if r.constraint_type == "p"@ {
        TableModel { columns: mark_primary(t.columns, r.columns), ..t }
    } else if r.constraint_type == "u"@ {
        if r.columns.len() == 1 && r.constraint_name == inline_unique_name(t.name, r.columns[0]) {
            match first_named(t.columns, r.columns[0]) {
                Some(i) => TableModel { columns: t.columns.update(i, ColumnModel { unique: true, ..t.columns[i] }), ..t },
                None => t,
            }
        } else {
            TableModel {
                constraints: t.constraints.push(ConstraintModel {
                    name: r.constraint_name,
                    kind: ConstraintKindModel::Unique { columns: r.columns },
                }),
                ..t
            }
        }
    } else if r.constraint_type == "f"@ {
        if r.columns.len() != 1 || r.foreign_columns.len() != 1 {
            t
        } else {
            match first_named(t.columns, r.columns[0]) {
                Some(i) => TableModel {
                    columns: t.columns.update(i, ColumnModel {
                        foreign_key: Some(ForeignKeyModel {
                            schema: r.foreign_schema,
                            table: r.foreign_table,
                            column: r.foreign_columns[0],
                            on_update: action_of_code(r.on_update),
                            on_delete: action_of_code(r.on_delete),
                        }),
                        ..t.columns[i]
                    }),
                    ..t
                },
                None => t,
            }
        }
    } else {
        match r.check_expression {
            Some(e) => TableModel {
                constraints: t.constraints.push(ConstraintModel {
                    name: r.constraint_name,
                    kind: ConstraintKindModel::Check { expression: e },
                }),
                ..t
            },
            None => t,
        }
    }
}

/// The tables after one constraint row; rows of unknown tables are skipped.
pub open spec fn constraint_row_step(tables: Seq<(Seq<char>, TableModel)>, r: ConstraintRowModel) -> Seq<(Seq<char>, TableModel)> {
    let key = qualify(r.schema_name, r.table_name);
    match lookup(tables, key) {
        Some(t) => update_at(tables, key, constraint_row_applied(t, r)),
        None => tables,
    }
}

pub open spec fn constraint_rows_applied(tables: Seq<(Seq<char>, TableModel)>, rows: Seq<ConstraintRowModel>) -> Seq<(Seq<char>, TableModel)>
    decreases rows.len(),
{
    if rows.len() == 0 {
        tables
    } else {
        constraint_row_step(constraint_rows_applied(tables, rows.drop_last()), rows.last())
    }
}

#[verifier::loop_isolation(false)]
fn apply_constraint_row(t: &mut Table, r: &ConstraintRow)
    ensures
        final(t)@ == constraint_row_applied(old(t)@, r@),
{
    let ghost t0 = t@;
    if str_eq(r.constraint_type.as_str(), "p") {
        let ghost names = r@.columns;
        let mut k: usize = 0;
        while k < r.columns.len()
            invariant
                k <= r.columns.len(),
                names == r@.columns,
                t@ == (TableModel { columns: mark_primary(t0.columns, names.take(k as int)), ..t0 }),
            decreases r.columns.len() - k,
        {
            let ghost before = t@.columns;
            assert(names.take(k + 1).drop_last() =~= names.take(k as int));
            assert(names.take(k + 1).last() == r.columns@[k as int]@);
            match column_index(&t.columns, r.columns[k].as_str()) {
                Some(i) => {
                    let mut c = t.columns[i].duplicate();
                    c.primary_key = true;
                    let ghost cv = c@;
                    t.columns.set(i, c);
                    assert(t@.columns =~= before.update(i as int, cv));
                },
                None => {},
            }
            k = k + 1;
        }
        assert(names.take(r.columns.len() as int) =~= names);
    } else if str_eq(r.constraint_type.as_str(), "u") {
        let inline = if r.columns.len() == 1 {
            let mut name = concat3(t.name.as_str(), "_", r.columns[0].as_str());
            name.append("_key");
            str_eq(r.constraint_name.as_str(), name.as_str())
        } else {
            false
        };
        if inline {
            match column_index(&t.columns, r.columns[0].as_str()) {
                Some(i) => {
                    let mut c = t.columns[i].duplicate();
                    c.unique = true;
                    let ghost cv = c@;
                    t.columns.set(i, c);
                    assert(t@.columns =~= t0.columns.update(i as int, cv));
                },
                None => {},
            }
        } else {
            let c = Constraint {
                name: r.constraint_name.clone(),
                kind: ConstraintKind::Unique { columns: clone_strings(&r.columns) },
            };
            let ghost cv = c@;
            t.constraints.push(c);
            assert(t@.constraints =~= t0.constraints.push(cv));
        }
    } else if str_eq(r.constraint_type.as_str(), "f") {
        if r.columns.len() == 1 && r.foreign_columns.len() == 1 {
            match column_index(&t.columns, r.columns[0].as_str()) {
                Some(i) => {
                    let mut c = t.columns[i].duplicate();
                    c.foreign_key = Some(ForeignKey {
                        schema: r.foreign_schema.clone(),
                        table: r.foreign_table.clone(),
                        column: r.foreign_columns[0].clone(),
                        on_update: referential_action(r.on_update.as_str()),
                        on_delete: referential_action(r.on_delete.as_str()),
                    });
                    let ghost cv = c@;
                    t.columns.set(i, c);
                    assert(t@.columns =~= t0.columns.update(i as int, cv));
                },
                None => {},
            }
        }
    } else {
        match &r.check_expression {
            Some(e) => {
                let c = Constraint { name: r.constraint_name.clone(), kind: ConstraintKind::Check { expression: e.clone() } };
                let ghost cv = c@;
                t.constraints.push(c);
                assert(t@.constraints =~= t0.constraints.push(cv));
            },
            None => {},
        }
    }
}

/// Folds catalog constraint rows into the schema's tables.
#[verifier::loop_isolation(false)]
pub fn apply_constraint_rows(database: &mut DatabaseSchema, rows: &Vec<ConstraintRow>)
    ensures
        final(database)@ == (DatabaseSchemaModel {
            tables: constraint_rows_applied(old(database)@.tables, rows_view(rows@)),
            ..old(database)@
        }),
{
    let ghost rs = rows_view(rows@);
    let mut i: usize = 0;
    while i < rows.len()
        invariant
            i <= rows.len(),
            rs == rows_view(rows@),
            database@ == (DatabaseSchemaModel { tables: constraint_rows_applied(old(database)@.tables, rs.take(i as int)), ..old(database)@ }),
        decreases rows.len() - i,
    {
        let r = &rows[i];
        let ghost prev = database@.tables;
        let key = concat3(r.schema_name.as_str(), ".", r.table_name.as_str());
        match database.tables.position(key.as_str()) {
            Some(p) => {
                let mut t = database.tables.value_at(p).duplicate();
                apply_constraint_row(&mut t, r);
                database.tables.set_value(p, t);
                proof { super::named::lemma_first_key(prev, key@, p as int); }
            },
            None => {},
        }
        assert(database@.tables == constraint_row_step(prev, r@));
        assert(rs.take(i + 1).drop_last() =~= rs.take(i as int));
        assert(rs[i as int] == r@);
        i = i + 1;
    }
    assert(rs.take(rows.len() as int) =~= rs);
}

// ---------------------------------------------------------------------------
// Indexes

/// One standalone index (not backing a constraint).
pub struct IndexRow {
    pub schema_name: String,
    pub table_name: String,
    pub index_name: String,
    pub is_unique: bool,
    pub columns: Vec<String>,
    pub predicate: Option<String>,
}

pub struct IndexRowModel {
    pub schema_name: Seq<char>,
    pub table_name: Seq<char>,
    pub index_name: Seq<char>,
    pub is_unique: bool,
    pub columns: Seq<Seq<char>>,
    pub predicate: Option<Seq<char>>,
}

impl View for IndexRow {
    type V = IndexRowModel;

    open spec fn view(&self) -> IndexRowModel {
        IndexRowModel {
            schema_name: self.schema_name@,
            table_name: self.table_name@,
            index_name: self.index_name@,
            is_unique: self.is_unique,
            columns: strings_view(self.columns@),
            predicate: opt_string_view(self.predicate),
        }
    }
}

/// The tables after one index row: an index with columns is appended to its
/// table; rows of unknown tables, and expression indexes, are skipped.
pub open spec fn index_row_step(tables: Seq<(Seq<char>, TableModel)>, r: IndexRowModel) -> Seq<(Seq<char>, TableModel)> {
    let key = qualify(r.schema_name, r.table_name);
    match lookup(tables, key) {
        Some(t) => if r.columns.len() == 0 {
            tables
        } else {
            update_at(tables, key, TableModel {
                indexes: t.indexes.push(IndexModel {
                    name: r.index_name,
                    columns: r.columns,
                    unique: r.is_unique,
                    predicate: r.predicate,
                }),
                ..t
            })
        },
        None => tables,
    }
}

pub open spec fn index_rows_applied(tables: Seq<(Seq<char>, TableModel)>, rows: Seq<IndexRowModel>) -> Seq<(Seq<char>, TableModel)>
    decreases rows.len(),
{
    if rows.len() == 0 {
        tables
    } else {
        index_row_step(index_rows_applied(tables, rows.drop_last()), rows.last())
    }
}

/// Folds catalog index rows into the schema's tables.
#[verifier::loop_isolation(false)]
pub fn apply_index_rows(database: &mut DatabaseSchema, rows: &Vec<IndexRow>)
    ensures
        final(database)@ == (DatabaseSchemaModel {
            tables: index_rows_applied(old(database)@.tables, rows_view(rows@)),
            ..old(database)@
        }),
{
    let ghost rs = rows_view(rows@);
    let mut i: usize = 0;
    while i < rows.len()
        invariant
            i <= rows.len(),
            rs == rows_view(rows@),
            database@ == (DatabaseSchemaModel { tables: index_rows_applied(old(database)@.tables, rs.take(i as int)), ..old(database)@ }),
        decreases rows.len() - i,
    {
        let r = &rows[i];
        let ghost prev = database@.tables;
        let key = concat3(r.schema_name.as_str(), ".", r.table_name.as_str());
        match database.tables.position(key.as_str()) {
            Some(p) => {
                proof { super::named::lemma_first_key(prev, key@, p as int); }
                if r.columns.len() > 0 {
                    let mut t = database.tables.value_at(p).duplicate();
                    let x = Index {
                        name: r.index_name.clone(),
                        columns: clone_strings(&r.columns),
                        unique: r.is_unique,
                        predicate: super::model::clone_opt_string(&r.predicate),
                    };
                    let ghost before = t@;
                    let ghost xv = x@;
                    t.indexes.push(x);
                    assert(t@.indexes =~= before.indexes.push(xv));
                    database.tables.set_value(p, t);
                }
            },
            None => {},
        }
        assert(database@.tables == index_row_step(prev, r@));
        assert(rs.take(i + 1).drop_last() =~= rs.take(i as int));
        assert(rs[i as int] == r@);
        i = i + 1;
    }
    assert(rs.take(rows.len() as int) =~= rs);
}

// ---------------------------------------------------------------------------
// Views

/// One view and its definition as the catalog prints it.
pub struct ViewRow {
    pub schema_name: String,
    pub view_name: String,
    pub definition: String,
}

pub struct ViewRowModel {
    pub schema_name: Seq<char>,
    pub view_name: Seq<char>,
    pub definition: Seq<char>,
}

impl View for ViewRow {
    type V = ViewRowModel;

    open spec fn view(&self) -> ViewRowModel {
        ViewRowModel { schema_name: self.schema_name@, view_name: self.view_name@, definition: self.definition@ }
    }
}

pub open spec fn view_rows_applied(views: Seq<(Seq<char>, SqlViewModel)>, rows: Seq<ViewRowModel>) -> Seq<(Seq<char>, SqlViewModel)>
    decreases rows.len(),
{
    if rows.len() == 0 {
        views
    } else {
        let r = rows.last();
        insert_entry(
            view_rows_applied(views, rows.drop_last()),
            qualify(r.schema_name, r.view_name),
            SqlViewModel { schema: r.schema_name, name: r.view_name, definition: r.definition },
        )
    }
}

/// Folds view rows into the schema's views, each under its qualified name.
#[verifier::loop_isolation(false)]
pub fn apply_view_rows(database: &mut DatabaseSchema, rows: &Vec<ViewRow>)
    ensures
        final(database)@ == (DatabaseSchemaModel {
            views: view_rows_applied(old(database)@.views, rows_view(rows@)),
            ..old(database)@
        }),
{
    let ghost rs = rows_view(rows@);
    let mut i: usize = 0;
    while i < rows.len()
        invariant
            i <= rows.len(),
            rs == rows_view(rows@),
            database@ == (DatabaseSchemaModel { views: view_rows_applied(old(database)@.views, rs.take(i as int)), ..old(database)@ }),
        decreases rows.len() - i,
    {
        let r = &rows[i];
        let view = SqlView { schema: r.schema_name.clone(), name: r.view_name.clone(), definition: r.definition.clone() };
        let key = view.qualified_name();
        database.views.insert(key, view);
        assert(rs.take(i + 1).drop_last() =~= rs.take(i as int));
        assert(rs[i as int] == r@);
        i = i + 1;
    }
    assert(rs.take(rows.len() as int) =~= rs);
}

} // verus!
