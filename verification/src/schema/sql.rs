//! Renders schema changes as a PostgreSQL migration script.

use vstd::prelude::*;

use super::change::{
    changes_view, dependents_view, ColumnOp, ColumnOpModel, EnumDependent, EnumDependentModel, SchemaChange,
    SchemaChangeModel, TableOp, TableOpModel,
};
use super::model::{
    action_sql, constraint_definition, qualify, strings_view, Column, ColumnModel, EnumType, EnumTypeModel,
    ForeignKey, ForeignKeyModel, Index, IndexModel, Table, TableModel,
};
use crate::text::{
    char_position, concat2, concat3, concat_map, find_char, find_last_char, join, join_strings, last_char_position,
    lemma_concat_map_step, owned, str_eq,
};

verus! {

// ---------------------------------------------------------------------------
// What each change renders to

/// `'value'`.
pub open spec fn quoted(v: Seq<char>) -> Seq<char> {
    "'"@ + v + "'"@
}

pub open spec fn quote_all(values: Seq<Seq<char>>) -> Seq<Seq<char>> {
    values.map_values(|v: Seq<char>| quoted(v))
}

pub open spec fn create_type_sql(e: EnumTypeModel) -> Seq<char> {
    "CREATE TYPE "@ + e.name + " AS ENUM ("@ + join(quote_all(e.values), ", "@) + ");"@
}

/// The part of a qualified name after its last dot.
pub open spec fn bare_name(name: Seq<char>) -> Seq<char> {
    match last_char_position(name, '.') {
        Some(i) => name.skip(i + 1),
        None => name,
    }
}

/// The quoted literal inside a default such as `'open'::core.order_status`:
/// what lies between its first two single quotes.
pub open spec fn default_literal(default: Seq<char>) -> Option<Seq<char>> {
    match char_position(default, '\'') {
        Some(a) => match char_position(default.skip(a + 1), '\'') {
            Some(b) => Some(default.subrange(a + 1, a + 1 + b)),
            None => None,
        },
        None => None,
    }
}

/// What a row holding a removed enum value becomes: the column default when
/// the new enum still has it, else NULL for a nullable column, else the new
/// enum's first value (NULL when it has none).
pub open spec fn fallback_value(new: EnumTypeModel, d: EnumDependentModel) -> Seq<char> {
    let literal = match d.default {
        Some(text) => default_literal(text),
        None => None,
    };
    if literal is Some && new.values.contains(literal->0) {
        quoted(literal->0)
    } else if d.nullable {
        "NULL"@
    } else if new.values.len() > 0 {
        quoted(new.values[0])
    } else {
        "NULL"@
    }
}

/// The old values the new enum keeps, quoted, in the old order.
pub open spec fn kept_values(old: EnumTypeModel, new: EnumTypeModel) -> Seq<Seq<char>> {
    concat_map(old.values, |v: Seq<char>| if new.values.contains(v) { seq![quoted(v)] } else { seq![] })
}

/// The USING expression that moves a column onto the recreated enum: a
/// plain text cast when every old value survives, the fallback when none
/// does, otherwise a CASE that keeps surviving values.
pub open spec fn cast_expression(old: EnumTypeModel, new: EnumTypeModel, d: EnumDependentModel) -> Seq<char> {
    let kept = kept_values(old, new);
    let column = d.column;
    if kept.len() == old.values.len() {
        column + "::text::"@ + new.name
    } else if kept.len() == 0 {
        fallback_value(new, d) + "::"@ + new.name
    } else {
        "(CASE WHEN "@ + column + "::text IN ("@ + join(kept, ", "@) + ") THEN "@ + column + "::text ELSE "@
            + fallback_value(new, d) + " END)::"@ + new.name
    }
}

/// The statements that move one dependent column onto the new enum, its
/// default dropped before the cast and restored after it.
pub open spec fn dependent_statements(old: EnumTypeModel, new: EnumTypeModel, d: EnumDependentModel) -> Seq<Seq<char>> {
    let prefix = "ALTER TABLE "@ + qualify(d.table.schema, d.table.name) + " ALTER COLUMN "@ + d.column;
    let drop_default = if d.default is Some { seq![prefix + " DROP DEFAULT;"@] } else { seq![] };
    let restore = match d.default {
        Some(v) => seq![prefix + " SET DEFAULT "@ + v + ";"@],
        None => seq![],
    };
    drop_default + seq![prefix + " TYPE "@ + new.name + " USING "@ + cast_expression(old, new, d) + ";"@] + restore
}

/// Recreating a changed enum: rename the old type aside, create the new one
/// under the original name, re-point each dependent column, drop the old type.
pub open spec fn replace_enum_sql(old: EnumTypeModel, new: EnumTypeModel, deps: Seq<EnumDependentModel>) -> Seq<char> {
    join(
        seq!["ALTER TYPE "@ + new.name + " RENAME TO "@ + bare_name(new.name) + "_old;"@, create_type_sql(new)]
            + concat_map(deps, |d: EnumDependentModel| dependent_statements(old, new, d))
            + seq!["DROP TYPE "@ + new.name + "_old;"@],
        "\n"@,
    )
}

pub open spec fn references_clause(fk: ForeignKeyModel) -> Seq<char> {
    "REFERENCES "@ + fk.schema + "."@ + fk.table + " ("@ + fk.column + ") ON UPDATE "@ + action_sql(fk.on_update)
        + " ON DELETE "@ + action_sql(fk.on_delete)
}

/// A column's definition in `CREATE TABLE` and `ADD COLUMN`.
pub open spec fn column_definition(c: ColumnModel) -> Seq<char> {
    join(
        seq![c.name, c.sql_type]
            + (if !c.nullable { seq!["NOT NULL"@] } else { seq![] })
            + (match c.default {
                Some(d) => seq!["DEFAULT "@ + d],
                None => seq![],
            })
            + (if c.unique { seq!["UNIQUE"@] } else { seq![] })
            + (match c.foreign_key {
                Some(fk) => seq![references_clause(fk)],
                None => seq![],
            }),
        " "@,
    )
}

pub open spec fn primary_key_names(columns: Seq<ColumnModel>) -> Seq<Seq<char>> {
    concat_map(columns, |c: ColumnModel| if c.primary_key { seq![c.name] } else { seq![] })
}

pub open spec fn table_entries(t: TableModel) -> Seq<Seq<char>> {
    let keys = primary_key_names(t.columns);
    t.columns.map_values(|c: ColumnModel| column_definition(c))
        + (if keys.len() > 0 { seq!["PRIMARY KEY ("@ + join(keys, ", "@) + ")"@] } else { seq![] })
}

pub open spec fn create_table_sql(t: TableModel) -> Seq<char> {
    "CREATE TABLE "@ + qualify(t.schema, t.name) + " (\n    "@ + join(table_entries(t), ",\n    "@) + "\n);"@
}

pub open spec fn column_op_sql(op: ColumnOpModel) -> Seq<char> {
    match op {
        ColumnOpModel::Add(c) => "ADD COLUMN "@ + column_definition(c),
        ColumnOpModel::Drop(n) => "DROP COLUMN "@ + n,
        ColumnOpModel::Rename { from, to } => "RENAME COLUMN "@ + from + " TO "@ + to,
        ColumnOpModel::SetType { column, sql_type, using } => match using {
            Some(e) => "ALTER COLUMN "@ + column + " TYPE "@ + sql_type + " USING "@ + e,
            None => "ALTER COLUMN "@ + column + " TYPE "@ + sql_type,
        },
        ColumnOpModel::SetNullable { column, nullable } =>
            "ALTER COLUMN "@ + column + (if nullable { " DROP NOT NULL"@ } else { " SET NOT NULL"@ }),
        ColumnOpModel::SetDefault { column, default } => match default {
            Some(v) => "ALTER COLUMN "@ + column + " SET DEFAULT "@ + v,
            None => "ALTER COLUMN "@ + column + " DROP DEFAULT"@,
        },
    }
}

/// Whether `s` ends with `suffix`.
pub open spec fn ends_in(s: Seq<char>, suffix: Seq<char>) -> bool {
    s.len() >= suffix.len() && s.skip(s.len() - suffix.len()) == suffix
}

/// What an ALTER COLUMN clause says of nulls, read from how it ends in
/// PostgreSQL: `DROP NOT NULL` lets the column hold nulls, `SET NOT NULL`
/// forbids them; any other clause says nothing of them.
pub open spec fn clause_allows_null(sql: Seq<char>) -> Option<bool> {
    if ends_in(sql, " DROP NOT NULL"@) {
        Some(true)
    } else if ends_in(sql, " SET NOT NULL"@) {
        Some(false)
    } else {
        None
    }
}

/// A nullability change renders to a clause that lets the column hold
/// nulls exactly when the change makes it nullable; a default change
/// renders to a clause that ends by setting the new default, or by dropping
/// it when there is none; each attribute clause names its column first.
pub proof fn law_column_clause_effect(column: Seq<char>, nullable: bool, default: Option<Seq<char>>, sql_type: Seq<char>, using: Option<Seq<char>>)
    ensures
        clause_allows_null(column_op_sql(ColumnOpModel::SetNullable { column, nullable })) == Some(nullable),
        match default {
            Some(v) => ends_in(column_op_sql(ColumnOpModel::SetDefault { column, default }), " SET DEFAULT "@ + v),
            None => ends_in(column_op_sql(ColumnOpModel::SetDefault { column, default }), " DROP DEFAULT"@),
        },
        column_op_sql(ColumnOpModel::SetNullable { column, nullable }).take(13 + column.len() as int) == "ALTER COLUMN "@ + column,
        column_op_sql(ColumnOpModel::SetDefault { column, default }).take(13 + column.len() as int) == "ALTER COLUMN "@ + column,
        column_op_sql(ColumnOpModel::SetType { column, sql_type, using }).take(13 + column.len() as int) == "ALTER COLUMN "@ + column,
{
    reveal_strlit("ALTER COLUMN ");
    reveal_strlit(" DROP NOT NULL");
    reveal_strlit(" SET NOT NULL");
    reveal_strlit(" SET DEFAULT ");
    reveal_strlit(" DROP DEFAULT");
    let head = "ALTER COLUMN "@ + column;
    assert(head.len() == 13 + column.len());
    let drop_nn = " DROP NOT NULL"@;
    let set_nn = " SET NOT NULL"@;
    let sql = column_op_sql(ColumnOpModel::SetNullable { column, nullable });
    if nullable {
        assert(sql == head + drop_nn);
        assert(sql.skip(sql.len() - drop_nn.len()) =~= drop_nn);
    } else {
        assert(sql == head + set_nn);
        assert(sql.skip(sql.len() - set_nn.len()) =~= set_nn);
        assert(sql.skip(sql.len() - drop_nn.len())[1] == ' ');
        assert(drop_nn[1] == 'D');
    }
    assert(sql.take(13 + column.len() as int) =~= head);
    let d = column_op_sql(ColumnOpModel::SetDefault { column, default });
    match default {
        Some(v) => {
            let tail = " SET DEFAULT "@ + v;
            assert(d == head + " SET DEFAULT "@ + v);
            assert(d.skip(d.len() - tail.len()) =~= tail);
        },
        None => {
            let tail = " DROP DEFAULT"@;
            assert(d == head + tail);
            assert(d.skip(d.len() - tail.len()) =~= tail);
        },
    }
    assert(d.take(13 + column.len() as int) =~= head);
    let ty = column_op_sql(ColumnOpModel::SetType { column, sql_type, using });
    assert(ty.take(13 + column.len() as int) =~= head);
}

pub open spec fn create_index_sql(table: Seq<char>, x: IndexModel) -> Seq<char> {
    "CREATE "@ + (if x.unique { "UNIQUE "@ } else { Seq::empty() }) + "INDEX "@ + x.name + " ON "@ + table + " ("@
        + join(x.columns, ", "@) + ")"@
        + (match x.predicate {
            Some(p) => " WHERE "@ + p,
            None => Seq::empty(),
        }) + ";"@
}

pub open spec fn table_op_sql(table: Seq<char>, op: TableOpModel) -> Seq<char> {
    match op {
        TableOpModel::AddConstraint(c) =>
            "ALTER TABLE "@ + table + " ADD CONSTRAINT "@ + c.name + " "@ + constraint_definition(c.kind) + ";"@,
        TableOpModel::DropConstraint(n) => "ALTER TABLE "@ + table + " DROP CONSTRAINT "@ + n + ";"@,
        TableOpModel::CreateIndex(x) => create_index_sql(table, x),
        TableOpModel::DropIndex { schema, name } => "DROP INDEX "@ + schema + "."@ + name + ";"@,
    }
}

/// The SQL of one change.
pub open spec fn change_sql(c: SchemaChangeModel) -> Seq<char> {
    match c {
        SchemaChangeModel::CreateSchema(n) => "CREATE SCHEMA IF NOT EXISTS "@ + n + ";"@,
        SchemaChangeModel::DropSchema(n) => "DROP SCHEMA IF EXISTS "@ + n + ";"@,
        SchemaChangeModel::CreateEnum(e) => create_type_sql(e),
        SchemaChangeModel::DropEnum(n) => "DROP TYPE IF EXISTS "@ + n + ";"@,
        SchemaChangeModel::ReplaceEnum { old, new, dependents } => replace_enum_sql(old, new, dependents),
        SchemaChangeModel::CreateTable(t) => create_table_sql(t),
        SchemaChangeModel::DropTable(t) => "DROP TABLE "@ + qualify(t.schema, t.name) + " CASCADE;"@,
        SchemaChangeModel::RenameTable { table, to } =>
            "ALTER TABLE "@ + qualify(table.schema, table.name) + " RENAME TO "@ + to + ";"@,
        SchemaChangeModel::AlterColumn { table, op } =>
            "ALTER TABLE "@ + qualify(table.schema, table.name) + " "@ + column_op_sql(op) + ";"@,
        SchemaChangeModel::AlterTable { table, op } => table_op_sql(qualify(table.schema, table.name), op),
        SchemaChangeModel::CreateView(v) => "CREATE VIEW "@ + qualify(v.schema, v.name) + " AS "@ + v.definition + ";"@,
        SchemaChangeModel::DropView(v) => "DROP VIEW IF EXISTS "@ + qualify(v.schema, v.name) + ";"@,
        SchemaChangeModel::Comment(text) => "-- "@ + text,
    }
}

/// A migration script: each change's SQL, separated by blank lines, ending
/// in a newline.
pub open spec fn script(changes: Seq<SchemaChangeModel>) -> Seq<char> {
    join(changes.map_values(|c: SchemaChangeModel| change_sql(c)), "\n\n"@) + "\n"@
}

// ---------------------------------------------------------------------------
// Rendering

fn quote(v: &str) -> (res: String)
    ensures
        res@ == quoted(v@),
{
    concat3("'", v, "'")
}

fn quote_values(values: &Vec<String>) -> (res: Vec<String>)
    ensures
        strings_view(res@) == quote_all(strings_view(values@)),
{
    let mut res: Vec<String> = Vec::new();
    let mut i: usize = 0;
    while i < values.len()
        invariant
            i <= values.len(),
            strings_view(res@) == quote_all(strings_view(values@)).take(i as int),
        decreases values.len() - i,
    {
        let q = quote(values[i].as_str());
        let ghost before = res@;
        res.push(q);
        assert(strings_view(res@) =~= strings_view(before).push(quoted(values@[i as int]@)));
        assert(quote_all(strings_view(values@))[i as int] == quoted(values@[i as int]@));
        assert(strings_view(res@) =~= quote_all(strings_view(values@)).take(i + 1));
        i = i + 1;
    }
    assert(quote_all(strings_view(values@)).take(values.len() as int) =~= quote_all(strings_view(values@)));
    res
}

fn create_type(e: &EnumType) -> (sql: String)
    ensures
        sql@ == create_type_sql(e@),
{
    let values = quote_values(&e.values);
    let joined = join_strings(&values, ", ");
    assert(values@.map_values(|p: String| p@) =~= strings_view(values@));
    let mut sql = concat3("CREATE TYPE ", e.name.as_str(), " AS ENUM (");
    sql.append(joined.as_str());
    sql.append(");");
    sql
}

fn bare(name: &str) -> (res: String)
    ensures
        res@ == bare_name(name@),
{
    match find_last_char(name, '.') {
        Some(i) => {
            let n = name.unicode_len();
            proof {
                let w = choose|w: int| 0 <= w < name@.len() && name@[w] == '.' && forall|j: int| w < j < name@.len() ==> name@[j] != '.';
            }
            let rest = name.substring_char(i + 1, n);
            assert(rest@ =~= name@.skip(i + 1));
            owned(rest)
        },
        None => owned(name),
    }
}

fn literal_of(default: &str) -> (res: Option<String>)
    ensures
        match res {
            Some(v) => default_literal(default@) == Some(v@),
            None => default_literal(default@) is None,
        },
{
    match find_char(default, '\'') {
        Some(a) => {
            proof {
                let w = choose|w: int| 0 <= w < default@.len() && default@[w] == '\'' && forall|j: int| 0 <= j < w ==> default@[j] != '\'';
            }
            let n = default.unicode_len();
            let rest = default.substring_char(a + 1, n);
            assert(rest@ =~= default@.skip(a + 1));
            match find_char(rest, '\'') {
                Some(b) => {
                    proof {
                        let w = choose|w: int| 0 <= w < rest@.len() && rest@[w] == '\'' && forall|j: int| 0 <= j < w ==> rest@[j] != '\'';
                    }
                    let v = default.substring_char(a + 1, a + 1 + b);
                    Some(owned(v))
                },
                None => None,
            }
        },
        None => None,
    }
}

fn fallback(new: &EnumType, d: &EnumDependent) -> (res: String)
    ensures
        res@ == fallback_value(new@, d@),
{
    let literal = match &d.default {
        Some(text) => literal_of(text.as_str()),
        None => None,
    };
    if let Some(v) = &literal {
        if contains_value(&new.values, v.as_str()) {
            return quote(v.as_str());
        }
    }
    if d.nullable {
        return owned("NULL");
    }
    if new.values.len() > 0 {
        quote(new.values[0].as_str())
    } else {
        owned("NULL")
    }
}

fn contains_value(v: &Vec<String>, s: &str) -> (found: bool)
    ensures
        found == strings_view(v@).contains(s@),
{
    let mut i: usize = 0;
    while i < v.len()
        invariant
            i <= v.len(),
            forall|j: int| 0 <= j < i ==> v@[j]@ != s@,
        decreases v.len() - i,
    {
        if str_eq(v[i].as_str(), s) {
            assert(strings_view(v@)[i as int] == s@);
            return true;
        }
        i = i + 1;
    }
    false
}

#[verifier::loop_isolation(false)]
fn kept(old: &EnumType, new: &EnumType) -> (res: Vec<String>)
    ensures
        strings_view(res@) == kept_values(old@, new@),
{
    let ghost f = |v: Seq<char>| if new@.values.contains(v) { seq![quoted(v)] } else { seq![] };
    let mut res: Vec<String> = Vec::new();
    let mut i: usize = 0;
    while i < old.values.len()
        invariant
            i <= old.values.len(),
            strings_view(res@) == concat_map(old@.values.take(i as int), f),
        decreases old.values.len() - i,
    {
        let ghost before = res@;
        if contains_value(&new.values, old.values[i].as_str()) {
            res.push(quote(old.values[i].as_str()));
            assert(strings_view(res@) =~= strings_view(before).push(quoted(old@.values[i as int])));
        }
        proof { lemma_concat_map_step(old@.values, f, i as int); }
        assert(strings_view(res@) =~= concat_map(old@.values.take(i + 1), f));
        i = i + 1;
    }
    assert(old@.values.take(old.values.len() as int) =~= old@.values);
    res
}

fn cast_of(old: &EnumType, new: &EnumType, d: &EnumDependent) -> (res: String)
    ensures
        res@ == cast_expression(old@, new@, d@),
{
    let k = kept(old, new);
    proof {
        assert(strings_view(old.values@).len() == old.values.len());
    }
    if k.len() == old.values.len() {
        return concat3(d.column.as_str(), "::text::", new.name.as_str());
    }
    let fb = fallback(new, d);
    if k.len() == 0 {
        return concat3(fb.as_str(), "::", new.name.as_str());
    }
    let joined = join_strings(&k, ", ");
    assert(k@.map_values(|p: String| p@) =~= strings_view(k@));
    let mut res = concat3("(CASE WHEN ", d.column.as_str(), "::text IN (");
    res.append(joined.as_str());
    res.append(") THEN ");
    res.append(d.column.as_str());
    res.append("::text ELSE ");
    res.append(fb.as_str());
    res.append(" END)::");
    res.append(new.name.as_str());
    res
}

fn dependent_sql(before: &EnumType, after: &EnumType, d: &EnumDependent, out: &mut Vec<String>)
    ensures
        strings_view(final(out)@) == strings_view(old(out)@) + dependent_statements(before@, after@, d@),
{
    let mut prefix = concat3("ALTER TABLE ", d.table.qualified_name().as_str(), " ALTER COLUMN ");
    prefix.append(d.column.as_str());
    let ghost pv = prefix@;
    let ghost start = strings_view(out@);
    if d.default.is_some() {
        out.push(concat2(prefix.as_str(), " DROP DEFAULT;"));
    }
    let ghost mid = strings_view(out@);
    let mut stmt = concat3(prefix.as_str(), " TYPE ", after.name.as_str());
    stmt.append(" USING ");
    stmt.append(cast_of(before, after, d).as_str());
    stmt.append(";");
    out.push(stmt);
    match &d.default {
        Some(v) => {
            let mut restore = concat3(prefix.as_str(), " SET DEFAULT ", v.as_str());
            restore.append(";");
            out.push(restore);
        },
        None => {},
    }
    assert(strings_view(out@) =~= start + dependent_statements(before@, after@, d@));
}

#[verifier::loop_isolation(false)]
fn replace_enum(old: &EnumType, new: &EnumType, deps: &Vec<EnumDependent>) -> (sql: String)
    ensures
        sql@ == replace_enum_sql(old@, new@, dependents_view(deps@)),
{
    let ghost f = |d: EnumDependentModel| dependent_statements(old@, new@, d);
    let ghost dv = dependents_view(deps@);
    let mut statements: Vec<String> = Vec::new();
    let mut first = concat3("ALTER TYPE ", new.name.as_str(), " RENAME TO ");
    first.append(bare(new.name.as_str()).as_str());
    first.append("_old;");
    let ghost first_v = first@;
    statements.push(first);
    let second = create_type(new);
    let ghost second_v = second@;
    statements.push(second);
    let ghost head = strings_view(statements@);
    assert(head =~= seq![first_v, second_v]);
    let mut i: usize = 0;
    while i < deps.len()
        invariant
            i <= deps.len(),
            dv == dependents_view(deps@),
            strings_view(statements@) == head + concat_map(dv.take(i as int), f),
        decreases deps.len() - i,
    {
        let ghost before = strings_view(statements@);
        dependent_sql(old, new, &deps[i], &mut statements);
        proof { lemma_concat_map_step(dv, f, i as int); }
        assert(dv[i as int] == deps@[i as int]@);
        assert(before == head + concat_map(dv.take(i as int), f));
        assert(strings_view(statements@) =~= head + concat_map(dv.take(i + 1), f));
        i = i + 1;
    }
    assert(dv.take(deps.len() as int) =~= dv);
    let ghost mid = strings_view(statements@);
    let last = concat3("DROP TYPE ", new.name.as_str(), "_old;");
    let ghost last_v = last@;
    statements.push(last);
    assert(strings_view(statements@) =~= mid.push(last_v));
    let sql = join_strings(&statements, "\n");
    assert(statements@.map_values(|p: String| p@) =~= strings_view(statements@));
    assert(strings_view(statements@) =~= seq!["ALTER TYPE "@ + new@.name + " RENAME TO "@ + bare_name(new@.name) + "_old;"@, create_type_sql(new@)]
        + concat_map(dv, f) + seq!["DROP TYPE "@ + new@.name + "_old;"@]);
    sql
}

fn references(fk: &ForeignKey) -> (sql: String)
    ensures
        sql@ == references_clause(fk@),
{
    let mut sql = concat3("REFERENCES ", fk.schema.as_str(), ".");
    sql.append(fk.table.as_str());
    sql.append(" (");
    sql.append(fk.column.as_str());
    sql.append(") ON UPDATE ");
    sql.append(fk.on_update.to_sql());
    sql.append(" ON DELETE ");
    sql.append(fk.on_delete.to_sql());
    sql
}

fn column_sql(c: &Column) -> (sql: String)
    ensures
        sql@ == column_definition(c@),
{
    let mut parts: Vec<String> = Vec::new();
    parts.push(c.name.clone());
    parts.push(c.sql_type.clone());
    if !c.nullable {
        parts.push(owned("NOT NULL"));
    }
    match &c.default {
        Some(d) => parts.push(concat2("DEFAULT ", d.as_str())),
        None => {},
    }
    if c.unique {
        parts.push(owned("UNIQUE"));
    }
    match &c.foreign_key {
        Some(fk) => parts.push(references(fk)),
        None => {},
    }
    let sql = join_strings(&parts, " ");
    assert(parts@.map_values(|p: String| p@) =~= seq![c@.name, c@.sql_type]
        + (if !c@.nullable { seq!["NOT NULL"@] } else { seq![] })
        + (match c@.default {
            Some(d) => seq!["DEFAULT "@ + d],
            None => seq![],
        })
        + (if c@.unique { seq!["UNIQUE"@] } else { seq![] })
        + (match c@.foreign_key {
            Some(fk) => seq![references_clause(fk)],
            None => seq![],
        }));
    sql
}

#[verifier::loop_isolation(false)]
fn create_table(t: &Table) -> (sql: String)
    ensures
        sql@ == create_table_sql(t@),
{
    let ghost f = |c: ColumnModel| if c.primary_key { seq![c.name] } else { seq![] };
    let mut entries: Vec<String> = Vec::new();
    let mut keys: Vec<String> = Vec::new();
    let mut i: usize = 0;
    while i < t.columns.len()
        invariant
            i <= t.columns.len(),
            strings_view(entries@) == t@.columns.map_values(|c: ColumnModel| column_definition(c)).take(i as int),
            strings_view(keys@) == concat_map(t@.columns.take(i as int), f),
        decreases t.columns.len() - i,
    {
        let c = &t.columns[i];
        assert(c@ == t@.columns[i as int]);
        let ghost entries_before = entries@;
        let ghost keys_before = keys@;
        entries.push(column_sql(c));
        assert(strings_view(entries@) =~= strings_view(entries_before).push(column_definition(c@)));
        if c.primary_key {
            keys.push(c.name.clone());
            assert(strings_view(keys@) =~= strings_view(keys_before).push(c@.name));
        }
        proof { lemma_concat_map_step(t@.columns, f, i as int); }
        assert(strings_view(entries@) =~= t@.columns.map_values(|c: ColumnModel| column_definition(c)).take(i + 1));
        assert(strings_view(keys@) =~= concat_map(t@.columns.take(i + 1), f));
        i = i + 1;
    }
    assert(t@.columns.take(t.columns.len() as int) =~= t@.columns);
    assert(t@.columns.map_values(|c: ColumnModel| column_definition(c)).take(t.columns.len() as int)
        =~= t@.columns.map_values(|c: ColumnModel| column_definition(c)));
    if keys.len() > 0 {
        let joined = join_strings(&keys, ", ");
        assert(keys@.map_values(|p: String| p@) =~= strings_view(keys@));
        entries.push(concat3("PRIMARY KEY (", joined.as_str(), ")"));
    }
    assert(entries@.map_values(|p: String| p@) =~= table_entries(t@));
    let body = join_strings(&entries, ",\n    ");
    let mut sql = concat3("CREATE TABLE ", t.qualified_name().as_str(), " (\n    ");
    sql.append(body.as_str());
    sql.append("\n);");
    sql
}

fn column_op(op: &ColumnOp) -> (sql: String)
    ensures
        sql@ == column_op_sql(op@),
{
    match op {
        ColumnOp::Add(c) => concat2("ADD COLUMN ", column_sql(c).as_str()),
        ColumnOp::Drop(n) => concat2("DROP COLUMN ", n.as_str()),
        ColumnOp::Rename { from, to } => {
            let mut sql = concat3("RENAME COLUMN ", from.as_str(), " TO ");
            sql.append(to.as_str());
            sql
        },
        ColumnOp::SetType { column, sql_type, using } => {
            let mut sql = concat3("ALTER COLUMN ", column.as_str(), " TYPE ");
            sql.append(sql_type.as_str());
            match using {
                Some(e) => {
                    sql.append(" USING ");
                    sql.append(e.as_str());
                },
                None => {},
            }
            sql
        },
        ColumnOp::SetNullable { column, nullable } => {
            let action = if *nullable { " DROP NOT NULL" } else { " SET NOT NULL" };
            concat3("ALTER COLUMN ", column.as_str(), action)
        },
        ColumnOp::SetDefault { column, default } => match default {
            Some(v) => {
                let mut sql = concat3("ALTER COLUMN ", column.as_str(), " SET DEFAULT ");
                sql.append(v.as_str());
                sql
            },
            None => concat3("ALTER COLUMN ", column.as_str(), " DROP DEFAULT"),
        },
    }
}

fn create_index(table: &str, x: &Index) -> (sql: String)
    ensures
        sql@ == create_index_sql(table@, x@),
{
    let mut sql = owned("CREATE ");
    if x.unique {
        sql.append("UNIQUE ");
    }
    sql.append("INDEX ");
    sql.append(x.name.as_str());
    sql.append(" ON ");
    sql.append(table);
    sql.append(" (");
    let joined = join_strings(&x.columns, ", ");
    assert(x.columns@.map_values(|p: String| p@) =~= strings_view(x.columns@));
    sql.append(joined.as_str());
    sql.append(")");
    match &x.predicate {
        Some(p) => {
            sql.append(" WHERE ");
            sql.append(p.as_str());
        },
        None => {},
    }
    sql.append(";");
    sql
}

fn table_op(table: &str, op: &TableOp) -> (sql: String)
    ensures
        sql@ == table_op_sql(table@, op@),
{
    match op {
        TableOp::AddConstraint(c) => {
            let mut sql = concat3("ALTER TABLE ", table, " ADD CONSTRAINT ");
            sql.append(c.name.as_str());
            sql.append(" ");
            sql.append(c.definition().as_str());
            sql.append(";");
            sql
        },
        TableOp::DropConstraint(n) => {
            let mut sql = concat3("ALTER TABLE ", table, " DROP CONSTRAINT ");
            sql.append(n.as_str());
            sql.append(";");
            sql
        },
        TableOp::CreateIndex(x) => create_index(table, x),
        TableOp::DropIndex { schema, name } => {
            let mut sql = concat3("DROP INDEX ", schema.as_str(), ".");
            sql.append(name.as_str());
            sql.append(";");
            sql
        },
    }
}

impl SchemaChange {
    /// The SQL of this change.
    pub fn to_sql(&self) -> (sql: String)
        ensures
            sql@ == change_sql(self@),
    {
        match self {
            SchemaChange::CreateSchema(n) => concat3("CREATE SCHEMA IF NOT EXISTS ", n.as_str(), ";"),
            SchemaChange::DropSchema(n) => concat3("DROP SCHEMA IF EXISTS ", n.as_str(), ";"),
            SchemaChange::CreateEnum(e) => create_type(e),
            SchemaChange::DropEnum(n) => concat3("DROP TYPE IF EXISTS ", n.as_str(), ";"),
            SchemaChange::ReplaceEnum { old, new, dependents } => replace_enum(old, new, dependents),
            SchemaChange::CreateTable(t) => create_table(t),
            SchemaChange::DropTable(t) => concat3("DROP TABLE ", t.qualified_name().as_str(), " CASCADE;"),
            SchemaChange::RenameTable { table, to } => {
                let mut sql = concat3("ALTER TABLE ", table.qualified_name().as_str(), " RENAME TO ");
                sql.append(to.as_str());
                sql.append(";");
                sql
            },
            SchemaChange::AlterColumn { table, op } => {
                let mut sql = concat3("ALTER TABLE ", table.qualified_name().as_str(), " ");
                sql.append(column_op(op).as_str());
                sql.append(";");
                sql
            },
            SchemaChange::AlterTable { table, op } => table_op(table.qualified_name().as_str(), op),
            SchemaChange::CreateView(v) => {
                let mut sql = concat3("CREATE VIEW ", v.qualified_name().as_str(), " AS ");
                sql.append(v.definition.as_str());
                sql.append(";");
                sql
            },
            SchemaChange::DropView(v) => concat3("DROP VIEW IF EXISTS ", v.qualified_name().as_str(), ";"),
            SchemaChange::Comment(text) => concat2("-- ", text.as_str()),
        }
    }
}

/// Renders an ordered list of schema changes into one SQL migration script.
pub fn render(changes: &Vec<SchemaChange>) -> (sql: String)
    ensures
        sql@ == script(changes_view(changes@)),
{
    let ghost cs = changes_view(changes@);
    let mut parts: Vec<String> = Vec::new();
    let mut i: usize = 0;
    while i < changes.len()
        invariant
            i <= changes.len(),
            cs == changes_view(changes@),
            strings_view(parts@) == cs.map_values(|c: SchemaChangeModel| change_sql(c)).take(i as int),
        decreases changes.len() - i,
    {
        let ghost before = parts@;
        parts.push(changes[i].to_sql());
        assert(cs[i as int] == changes@[i as int]@);
        assert(strings_view(parts@) =~= strings_view(before).push(change_sql(cs[i as int])));
        assert(strings_view(parts@) =~= cs.map_values(|c: SchemaChangeModel| change_sql(c)).take(i + 1));
        i = i + 1;
    }
    assert(parts@.map_values(|p: String| p@) =~= cs.map_values(|c: SchemaChangeModel| change_sql(c)));
    let mut sql = join_strings(&parts, "\n\n");
    sql.append("\n");
    sql
}

} // verus!
