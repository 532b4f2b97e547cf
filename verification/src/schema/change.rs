//! Schema changes: the steps of a migration.

use vstd::prelude::*;

use super::model::{
    clone_opt_string, opt_string_view, Column, ColumnModel, Constraint, ConstraintModel, EnumType, EnumTypeModel,
    Index, IndexModel, SqlView, SqlViewModel, Table, TableModel, TableReference, TableReferenceModel, ViewReference,
    ViewReferenceModel,
};

verus! {

/// A column that stores a replaced enum, carrying what the rewrite needs: the
/// default is dropped and restored around the cast, and nullability picks the
/// fallback for rows holding a value the new enum no longer has.
#[derive(Debug, Clone)]
pub struct EnumDependent {
    pub table: TableReference,
    pub column: String,
    pub nullable: bool,
    pub default: Option<String>,
}

pub struct EnumDependentModel {
    pub table: TableReferenceModel,
    pub column: Seq<char>,
    pub nullable: bool,
    pub default: Option<Seq<char>>,
}

impl View for EnumDependent {
    type V = EnumDependentModel;

    open spec fn view(&self) -> EnumDependentModel {
        EnumDependentModel {
            table: self.table@,
            column: self.column@,
            nullable: self.nullable,
            default: opt_string_view(self.default),
        }
    }
}

impl EnumDependent {
    pub fn duplicate(&self) -> (res: EnumDependent)
        ensures
            res == *self,
    {
        EnumDependent {
            table: self.table.duplicate(),
            column: self.column.clone(),
            nullable: self.nullable,
            default: clone_opt_string(&self.default),
        }
    }
}

pub fn clone_dependents(v: &Vec<EnumDependent>) -> (res: Vec<EnumDependent>)
    ensures
        res@ == v@,
{
    let mut res: Vec<EnumDependent> = Vec::new();
    let mut i: usize = 0;
    while i < v.len()
        invariant
            i <= v.len(),
            res@ == v@.take(i as int),
        decreases v.len() - i,
    {
        res.push(v[i].duplicate());
        assert(res@ =~= v@.take(i + 1));
        i = i + 1;
    }
    assert(v@.take(v.len() as int) =~= v@);
    res
}

/// A constraint- or index-level operation on one table. A redefinition is a
/// drop followed by an add.
#[derive(Debug, Clone)]
pub enum TableOp {
    AddConstraint(Constraint),
    DropConstraint(String),
    CreateIndex(Index),
    DropIndex { schema: String, name: String },
}

pub enum TableOpModel {
    AddConstraint(ConstraintModel),
    DropConstraint(Seq<char>),
    CreateIndex(IndexModel),
    DropIndex { schema: Seq<char>, name: Seq<char> },
}

impl View for TableOp {
    type V = TableOpModel;

    open spec fn view(&self) -> TableOpModel {
        match self {
            TableOp::AddConstraint(c) => TableOpModel::AddConstraint(c@),
            TableOp::DropConstraint(n) => TableOpModel::DropConstraint(n@),
            TableOp::CreateIndex(i) => TableOpModel::CreateIndex(i@),
            TableOp::DropIndex { schema, name } => TableOpModel::DropIndex { schema: schema@, name: name@ },
        }
    }
}

/// A single column-level operation on one table.
#[derive(Debug, Clone)]
pub enum ColumnOp {
    Add(Column),
    Drop(String),
    Rename { from: String, to: String },
    SetType { column: String, sql_type: String, using: Option<String> },
    SetNullable { column: String, nullable: bool },
    SetDefault { column: String, default: Option<String> },
}

pub enum ColumnOpModel {
    Add(ColumnModel),
    Drop(Seq<char>),
    Rename { from: Seq<char>, to: Seq<char> },
    SetType { column: Seq<char>, sql_type: Seq<char>, using: Option<Seq<char>> },
    SetNullable { column: Seq<char>, nullable: bool },
    SetDefault { column: Seq<char>, default: Option<Seq<char>> },
}

impl View for ColumnOp {
    type V = ColumnOpModel;

    open spec fn view(&self) -> ColumnOpModel {
        match self {
            ColumnOp::Add(c) => ColumnOpModel::Add(c@),
            ColumnOp::Drop(n) => ColumnOpModel::Drop(n@),
            ColumnOp::Rename { from, to } => ColumnOpModel::Rename { from: from@, to: to@ },
            ColumnOp::SetType { column, sql_type, using } => ColumnOpModel::SetType {
                column: column@,
                sql_type: sql_type@,
                using: opt_string_view(*using),
            },
            ColumnOp::SetNullable { column, nullable } => ColumnOpModel::SetNullable {
                column: column@,
                nullable: *nullable,
            },
            ColumnOp::SetDefault { column, default } => ColumnOpModel::SetDefault {
                column: column@,
                default: opt_string_view(*default),
            },
        }
    }
}

/// One step of a migration.
#[derive(Debug, Clone)]
pub enum SchemaChange {
    CreateSchema(String),
    DropSchema(String),
    CreateEnum(EnumType),
    DropEnum(String),
    ReplaceEnum { old: EnumType, new: EnumType, dependents: Vec<EnumDependent> },
    CreateTable(Table),
    DropTable(TableReference),
    RenameTable { table: TableReference, to: String },
    AlterColumn { table: TableReference, op: ColumnOp },
    AlterTable { table: TableReference, op: TableOp },
    CreateView(SqlView),
    DropView(ViewReference),
    Comment(String),
}

pub enum SchemaChangeModel {
    CreateSchema(Seq<char>),
    DropSchema(Seq<char>),
    CreateEnum(EnumTypeModel),
    DropEnum(Seq<char>),
    ReplaceEnum { old: EnumTypeModel, new: EnumTypeModel, dependents: Seq<EnumDependentModel> },
    CreateTable(TableModel),
    DropTable(TableReferenceModel),
    RenameTable { table: TableReferenceModel, to: Seq<char> },
    AlterColumn { table: TableReferenceModel, op: ColumnOpModel },
    AlterTable { table: TableReferenceModel, op: TableOpModel },
    CreateView(SqlViewModel),
    DropView(ViewReferenceModel),
    Comment(Seq<char>),
}

pub open spec fn dependents_view(v: Seq<EnumDependent>) -> Seq<EnumDependentModel> {
    v.map_values(|d: EnumDependent| d@)
}

impl View for SchemaChange {
    type V = SchemaChangeModel;

    open spec fn view(&self) -> SchemaChangeModel {
        match self {
            SchemaChange::CreateSchema(n) => SchemaChangeModel::CreateSchema(n@),
            SchemaChange::DropSchema(n) => SchemaChangeModel::DropSchema(n@),
            SchemaChange::CreateEnum(e) => SchemaChangeModel::CreateEnum(e@),
            SchemaChange::DropEnum(n) => SchemaChangeModel::DropEnum(n@),
            SchemaChange::ReplaceEnum { old, new, dependents } => SchemaChangeModel::ReplaceEnum {
                old: old@,
                new: new@,
                dependents: dependents_view(dependents@),
            },
            SchemaChange::CreateTable(t) => SchemaChangeModel::CreateTable(t@),
            SchemaChange::DropTable(t) => SchemaChangeModel::DropTable(t@),
            SchemaChange::RenameTable { table, to } => SchemaChangeModel::RenameTable { table: table@, to: to@ },
            SchemaChange::AlterColumn { table, op } => SchemaChangeModel::AlterColumn { table: table@, op: op@ },
            SchemaChange::AlterTable { table, op } => SchemaChangeModel::AlterTable { table: table@, op: op@ },
            SchemaChange::CreateView(v) => SchemaChangeModel::CreateView(v@),
            SchemaChange::DropView(v) => SchemaChangeModel::DropView(v@),
            SchemaChange::Comment(t) => SchemaChangeModel::Comment(t@),
        }
    }
}

pub open spec fn changes_view(v: Seq<SchemaChange>) -> Seq<SchemaChangeModel> {
    v.map_values(|c: SchemaChange| c@)
}

} // verus!
