//! Undoing a migration: the changes that reverse a list of changes, reading
//! what was dropped back out of the schema as it stood before them.

use vstd::prelude::*;

use super::change::{
    changes_view, clone_dependents, ColumnOp, ColumnOpModel, SchemaChange, SchemaChangeModel, TableOp, TableOpModel,
};
use super::diff::{column_after, table_key, text_cast, view_ref, table_ref};
use super::model::{
    column_named, constraint_named, index_named, lemma_find_first_some, qualify, ColumnModel, DatabaseSchema, DatabaseSchemaModel,
    TableReference, TableReferenceModel, ViewReferenceModel,
};
use super::named::lookup;
use crate::text::concat3;

verus! {

/// The baseline column `column` of the table `t` refers to.
pub open spec fn baseline_column(b: DatabaseSchemaModel, t: TableReferenceModel, column: Seq<char>) -> Option<ColumnModel> {
    match lookup(b.tables, qualify(t.schema, t.name)) {
        Some(table) => column_named(table.columns, column),
        None => None,
    }
}

/// The note left when an attribute cannot be restored.
pub open spec fn cannot_revert(t: TableReferenceModel, column: Seq<char>, what: Seq<char>) -> SchemaChangeModel {
    SchemaChangeModel::Comment("cannot revert "@ + what + " of "@ + qualify(t.schema, t.name) + "."@ + column)
}

/// The note left when a dropped object is missing from the baseline.
pub open spec fn cannot_recreate(what: Seq<char>) -> SchemaChangeModel {
    SchemaChangeModel::Comment("cannot recreate "@ + what + ": not in baseline"@)
}

pub open spec fn invert_column(b: DatabaseSchemaModel, t: TableReferenceModel, op: ColumnOpModel) -> SchemaChangeModel {
    let alter = |op: ColumnOpModel| SchemaChangeModel::AlterColumn { table: t, op };
    match op {
        ColumnOpModel::Add(c) => alter(ColumnOpModel::Drop(c.name)),
        ColumnOpModel::Rename { from, to } => alter(ColumnOpModel::Rename { from: to, to: from }),
        ColumnOpModel::Drop(column) => match baseline_column(b, t, column) {
            Some(existing) => alter(ColumnOpModel::Add(existing)),
            None => cannot_revert(t, column, "restore"@),
        },
        ColumnOpModel::SetType { column, .. } => match baseline_column(b, t, column) {
            Some(existing) => alter(ColumnOpModel::SetType {
                column,
                sql_type: existing.sql_type,
                using: if lookup(b.enums, existing.sql_type) is Some {
                    Some(text_cast(column, existing.sql_type))
                } else {
                    None
                },
            }),
            None => cannot_revert(t, column, "type"@),
        },
        ColumnOpModel::SetNullable { column, .. } => match baseline_column(b, t, column) {
            Some(existing) => alter(ColumnOpModel::SetNullable { column, nullable: existing.nullable }),
            None => cannot_revert(t, column, "nullability"@),
        },
        ColumnOpModel::SetDefault { column, .. } => match baseline_column(b, t, column) {
            Some(existing) => alter(ColumnOpModel::SetDefault { column, default: existing.default }),
            None => cannot_revert(t, column, "default"@),
        },
    }
}

/// The column an attribute change or a rename is aimed at.
pub open spec fn op_column(op: ColumnOpModel) -> Option<Seq<char>> {
    match op {
        ColumnOpModel::SetType { column, .. } => Some(column),
        ColumnOpModel::SetNullable { column, .. } => Some(column),
        ColumnOpModel::SetDefault { column, .. } => Some(column),
        _ => None,
    }
}

/// Undoing a type, nullability or default change restores the column the
/// baseline holds: applied after the change, its inverse gives the
/// baseline column back, attribute for attribute.
pub proof fn law_invert_restores_column(b: DatabaseSchemaModel, t: TableReferenceModel, op: ColumnOpModel)
    requires
        op_column(op) is Some,
        baseline_column(b, t, op_column(op)->0) is Some,
    ensures
        ({
            let existing = baseline_column(b, t, op_column(op)->0)->0;
            let changed = column_after(t, existing, SchemaChangeModel::AlterColumn { table: t, op });
            column_after(t, changed, invert_column(b, t, op)) == existing
        }),
{
    let column = op_column(op)->0;
    let table = lookup(b.tables, qualify(t.schema, t.name))->0;
    let p = |c: ColumnModel| c.name == column;
    lemma_find_first_some(table.columns, p);
    let existing = baseline_column(b, t, column)->0;
    assert(existing.name == column);
}

/// Undoing a rename gives the renamed column its old name back.
pub proof fn law_invert_restores_name(b: DatabaseSchemaModel, t: TableReferenceModel, c: ColumnModel, to: Seq<char>)
    ensures
        ({
            let op = ColumnOpModel::Rename { from: c.name, to };
            let renamed = column_after(t, c, SchemaChangeModel::AlterColumn { table: t, op });
            column_after(t, renamed, invert_column(b, t, op)) == c
        }),
{
}

pub open spec fn invert_table(b: DatabaseSchemaModel, t: TableReferenceModel, op: TableOpModel) -> SchemaChangeModel {
    let table = lookup(b.tables, qualify(t.schema, t.name));
    let alter = |op: TableOpModel| SchemaChangeModel::AlterTable { table: t, op };
    match op {
        TableOpModel::AddConstraint(c) => alter(TableOpModel::DropConstraint(c.name)),
        TableOpModel::DropConstraint(name) => match table {
            Some(bt) => match constraint_named(bt.constraints, name) {
                Some(c) => alter(TableOpModel::AddConstraint(c)),
                None => cannot_recreate("constraint "@ + name + " on "@ + qualify(t.schema, t.name)),
            },
            None => cannot_recreate("constraint "@ + name + " on "@ + qualify(t.schema, t.name)),
        },
        TableOpModel::CreateIndex(x) => alter(TableOpModel::DropIndex { schema: t.schema, name: x.name }),
        TableOpModel::DropIndex { name, .. } => match table {
            Some(bt) => match index_named(bt.indexes, name) {
                Some(x) => alter(TableOpModel::CreateIndex(x)),
                None => cannot_recreate("index "@ + name + " on "@ + qualify(t.schema, t.name)),
            },
            None => cannot_recreate("index "@ + name + " on "@ + qualify(t.schema, t.name)),
        },
    }
}

/// The change that undoes `c`, reading dropped definitions from `b`, the
/// schema before `c`. What `b` lacks becomes a comment saying so.
pub open spec fn invert_one(c: SchemaChangeModel, b: DatabaseSchemaModel) -> SchemaChangeModel {
    match c {
        SchemaChangeModel::CreateSchema(n) => SchemaChangeModel::DropSchema(n),
        SchemaChangeModel::DropSchema(n) => SchemaChangeModel::CreateSchema(n),
        SchemaChangeModel::CreateEnum(e) => SchemaChangeModel::DropEnum(e.name),
        SchemaChangeModel::DropEnum(n) => match lookup(b.enums, n) {
            Some(e) => SchemaChangeModel::CreateEnum(e),
            None => cannot_recreate("enum "@ + n),
        },
        SchemaChangeModel::ReplaceEnum { old, new, dependents } =>
            SchemaChangeModel::ReplaceEnum { old: new, new: old, dependents },
        SchemaChangeModel::Comment(text) => SchemaChangeModel::Comment(text),
        SchemaChangeModel::CreateTable(t) => SchemaChangeModel::DropTable(table_ref(t)),
        SchemaChangeModel::DropTable(t) => match lookup(b.tables, qualify(t.schema, t.name)) {
            Some(table) => SchemaChangeModel::CreateTable(table),
            None => cannot_recreate("table "@ + qualify(t.schema, t.name)),
        },
        SchemaChangeModel::RenameTable { table, to } => SchemaChangeModel::RenameTable {
            table: TableReferenceModel { schema: table.schema, name: to },
            to: table.name,
        },
        SchemaChangeModel::AlterColumn { table, op } => invert_column(b, table, op),
        SchemaChangeModel::AlterTable { table, op } => invert_table(b, table, op),
        SchemaChangeModel::CreateView(v) => SchemaChangeModel::DropView(view_ref(v)),
        SchemaChangeModel::DropView(v) => match lookup(b.views, qualify(v.schema, v.name)) {
            Some(view) => SchemaChangeModel::CreateView(view),
            None => cannot_recreate("view "@ + qualify(v.schema, v.name)),
        },
    }
}

/// The changes that undo `changes`, last change first, so dependent objects
/// are torn down before what they depend on.
pub open spec fn inverted(changes: Seq<SchemaChangeModel>, b: DatabaseSchemaModel) -> Seq<SchemaChangeModel> {
    Seq::new(changes.len(), |k: int| invert_one(changes[changes.len() - 1 - k], b))
}

fn missing_note(kind: &str, name: &str) -> (change: SchemaChange)
    ensures
        change@ == cannot_recreate(kind@ + name@),
{
    let mut text = concat3("cannot recreate ", kind, name);
    text.append(": not in baseline");
    assert(text@ =~= "cannot recreate "@ + (kind@ + name@) + ": not in baseline"@);
    SchemaChange::Comment(text)
}

fn baseline_column_of<'a>(b: &'a DatabaseSchema, t: &TableReference, column: &str) -> (found: Option<&'a super::model::Column>)
    ensures
        match found {
            Some(c) => baseline_column(b@, t@, column@) == Some(c@),
            None => baseline_column(b@, t@, column@) is None,
        },
{
    match b.tables.get(t.qualified_name().as_str()) {
        Some(table) => table.column(column),
        None => None,
    }
}

fn revert_note(t: &TableReference, column: &str, what: &str) -> (change: SchemaChange)
    ensures
        change@ == cannot_revert(t@, column@, what@),
{
    let mut text = concat3("cannot revert ", what, " of ");
    text.append(t.qualified_name().as_str());
    text.append(".");
    text.append(column);
    assert(text@ =~= "cannot revert "@ + what@ + " of "@ + qualify(t@.schema, t@.name) + "."@ + column@);
    SchemaChange::Comment(text)
}

fn invert_column_op(b: &DatabaseSchema, t: &TableReference, op: &ColumnOp) -> (change: SchemaChange)
    ensures
        change@ == invert_column(b@, t@, op@),
{
    match op {
        ColumnOp::Add(c) => SchemaChange::AlterColumn { table: t.duplicate(), op: ColumnOp::Drop(c.name.clone()) },
        ColumnOp::Rename { from, to } => SchemaChange::AlterColumn {
            table: t.duplicate(),
            op: ColumnOp::Rename { from: to.clone(), to: from.clone() },
        },
        ColumnOp::Drop(column) => match baseline_column_of(b, t, column.as_str()) {
            Some(existing) => SchemaChange::AlterColumn { table: t.duplicate(), op: ColumnOp::Add(existing.duplicate()) },
            None => revert_note(t, column.as_str(), "restore"),
        },
        ColumnOp::SetType { column, .. } => match baseline_column_of(b, t, column.as_str()) {
            Some(existing) => {
                let using = if b.enums.contains_key(existing.sql_type.as_str()) {
                    Some(concat3(column.as_str(), "::text::", existing.sql_type.as_str()))
                } else {
                    None
                };
                SchemaChange::AlterColumn {
                    table: t.duplicate(),
                    op: ColumnOp::SetType { column: column.clone(), sql_type: existing.sql_type.clone(), using },
                }
            },
            None => revert_note(t, column.as_str(), "type"),
        },
        ColumnOp::SetNullable { column, .. } => match baseline_column_of(b, t, column.as_str()) {
            Some(existing) => SchemaChange::AlterColumn {
                table: t.duplicate(),
                op: ColumnOp::SetNullable { column: column.clone(), nullable: existing.nullable },
            },
            None => revert_note(t, column.as_str(), "nullability"),
        },
        ColumnOp::SetDefault { column, .. } => match baseline_column_of(b, t, column.as_str()) {
            Some(existing) => SchemaChange::AlterColumn {
                table: t.duplicate(),
                op: ColumnOp::SetDefault { column: column.clone(), default: super::model::clone_opt_string(&existing.default) },
            },
            None => revert_note(t, column.as_str(), "default"),
        },
    }
}

fn recreate_note(kind: &str, name: &str, t: &TableReference) -> (change: SchemaChange)
    ensures
        change@ == cannot_recreate(kind@ + name@ + " on "@ + qualify(t@.schema, t@.name)),
{
    let mut text = concat3("cannot recreate ", kind, name);
    text.append(" on ");
    text.append(t.qualified_name().as_str());
    text.append(": not in baseline");
    assert(text@ =~= "cannot recreate "@ + (kind@ + name@ + " on "@ + qualify(t@.schema, t@.name)) + ": not in baseline"@);
    SchemaChange::Comment(text)
}

fn invert_table_op(b: &DatabaseSchema, t: &TableReference, op: &TableOp) -> (change: SchemaChange)
    ensures
        change@ == invert_table(b@, t@, op@),
{
    let table = b.tables.get(t.qualified_name().as_str());
    match op {
        TableOp::AddConstraint(c) => SchemaChange::AlterTable { table: t.duplicate(), op: TableOp::DropConstraint(c.name.clone()) },
        TableOp::DropConstraint(name) => {
            let found = match table {
                Some(bt) => bt.constraint(name.as_str()),
                None => None,
            };
            match found {
                Some(c) => SchemaChange::AlterTable { table: t.duplicate(), op: TableOp::AddConstraint(c.duplicate()) },
                None => recreate_note("constraint ", name.as_str(), t),
            }
        },
        TableOp::CreateIndex(x) => SchemaChange::AlterTable {
            table: t.duplicate(),
            op: TableOp::DropIndex { schema: t.schema.clone(), name: x.name.clone() },
        },
        TableOp::DropIndex { name, .. } => {
            let found = match table {
                Some(bt) => bt.index(name.as_str()),
                None => None,
            };
            match found {
                Some(x) => SchemaChange::AlterTable { table: t.duplicate(), op: TableOp::CreateIndex(x.duplicate()) },
                None => recreate_note("index ", name.as_str(), t),
            }
        },
    }
}

/// The change that undoes `change`, reading dropped definitions from
/// `baseline`, the schema before it.
pub fn invert_change(change: &SchemaChange, baseline: &DatabaseSchema) -> (undo: SchemaChange)
    ensures
        undo@ == invert_one(change@, baseline@),
{
    let b = baseline;
    match change {
        SchemaChange::CreateSchema(n) => SchemaChange::DropSchema(n.clone()),
        SchemaChange::DropSchema(n) => SchemaChange::CreateSchema(n.clone()),
        SchemaChange::CreateEnum(e) => SchemaChange::DropEnum(e.name.clone()),
        SchemaChange::DropEnum(n) => match b.enums.get(n.as_str()) {
            Some(e) => SchemaChange::CreateEnum(e.duplicate()),
            None => missing_note("enum ", n.as_str()),
        },
        SchemaChange::ReplaceEnum { old, new, dependents } => SchemaChange::ReplaceEnum {
            old: new.duplicate(),
            new: old.duplicate(),
            dependents: clone_dependents(dependents),
        },
        SchemaChange::Comment(text) => SchemaChange::Comment(text.clone()),
        SchemaChange::CreateTable(t) => SchemaChange::DropTable(t.reference()),
        SchemaChange::DropTable(t) => {
            let name = t.qualified_name();
            match b.tables.get(name.as_str()) {
                Some(table) => SchemaChange::CreateTable(table.duplicate()),
                None => missing_note("table ", name.as_str()),
            }
        },
        SchemaChange::RenameTable { table, to } => SchemaChange::RenameTable {
            table: TableReference { schema: table.schema.clone(), name: to.clone() },
            to: table.name.clone(),
        },
        SchemaChange::AlterColumn { table, op } => invert_column_op(b, table, op),
        SchemaChange::AlterTable { table, op } => invert_table_op(b, table, op),
        SchemaChange::CreateView(v) => SchemaChange::DropView(v.reference()),
        SchemaChange::DropView(v) => {
            let name = v.qualified_name();
            match b.views.get(name.as_str()) {
                Some(view) => SchemaChange::CreateView(view.duplicate()),
                None => missing_note("view ", name.as_str()),
            }
        },
    }
}

/// The changes that undo `changes`, reading old definitions from `baseline`,
/// the schema as it was before them. The list is reversed so dependent
/// objects are torn down before what they depend on.
pub fn invert(changes: &Vec<SchemaChange>, baseline: &DatabaseSchema) -> (undo: Vec<SchemaChange>)
    ensures
        changes_view(undo@) == inverted(changes_view(changes@), baseline@),
{
    let ghost cs = changes_view(changes@);
    let mut undo: Vec<SchemaChange> = Vec::new();
    let mut k: usize = changes.len();
    while k > 0
        invariant
            k <= changes.len(),
            cs == changes_view(changes@),
            undo@.len() == changes.len() - k,
            forall|m: int| 0 <= m < undo@.len() ==> (#[trigger] undo@[m])@ == invert_one(cs[cs.len() - 1 - m], baseline@),
        decreases k,
    {
        k = k - 1;
        let u = invert_change(&changes[k], baseline);
        undo.push(u);
    }
    assert(changes_view(undo@) =~= inverted(cs, baseline@));
    undo
}

/// Changes whose undo needs nothing from the baseline.
pub open spec fn undone_without_baseline(c: SchemaChangeModel) -> bool {
    match c {
        SchemaChangeModel::CreateSchema(_) => true,
        SchemaChangeModel::DropSchema(_) => true,
        SchemaChangeModel::ReplaceEnum { .. } => true,
        SchemaChangeModel::Comment(_) => true,
        SchemaChangeModel::RenameTable { .. } => true,
        SchemaChangeModel::AlterColumn { op: ColumnOpModel::Rename { .. }, .. } => true,
        _ => false,
    }
}

/// Undoing the undo of a schema create or drop, an enum replace, a comment,
/// a table rename or a column rename gives the change back, whatever either
/// baseline holds.
pub proof fn law_invert_twice(c: SchemaChangeModel, b1: DatabaseSchemaModel, b2: DatabaseSchemaModel)
    requires
        undone_without_baseline(c),
    ensures
        invert_one(invert_one(c, b1), b2) == c,
{
}

/// Undoing `first` followed by `second` undoes `second` first.
pub proof fn law_invert_concatenation(first: Seq<SchemaChangeModel>, second: Seq<SchemaChangeModel>, b: DatabaseSchemaModel)
    ensures
        inverted(first + second, b) == inverted(second, b) + inverted(first, b),
{
    assert(inverted(first + second, b) =~= inverted(second, b) + inverted(first, b));
}

} // verus!
