//! Computes the changes that turn one schema into another.

use vstd::prelude::*;

use super::change::{
    changes_view, dependents_view, ColumnOp, ColumnOpModel, EnumDependent, EnumDependentModel, SchemaChange,
    SchemaChangeModel, TableOp, TableOpModel,
};
use super::model::{
    clone_opt_string, column_named, constraint_named, find_first, index_named, lemma_find_first_skip,
    lemma_find_first_at, lemma_find_first_some, opt_strings_equal, qualify, strings_equal, strings_view, Column, ColumnModel, Constraint,
    ConstraintKind, ConstraintKindModel, ConstraintModel, DatabaseSchema, DatabaseSchemaModel, EnumTypeModel,
    IndexModel, SqlViewModel, Table, TableModel, TableReference, TableReferenceModel, ViewReferenceModel,
};
use super::named::{insert_entry, keys_of, lookup, NamedMap};
use super::order::{creation_order, keys_at, order_by_dependencies, positions_of};
use crate::text::{char_position, concat_map, find_char, lemma_concat_map_step, str_eq};

verus! {

// ---------------------------------------------------------------------------
// Shared spec vocabulary

pub open spec fn table_ref(t: TableModel) -> TableReferenceModel {
    TableReferenceModel { schema: t.schema, name: t.name }
}

pub open spec fn table_key(t: TableModel) -> Seq<char> {
    qualify(t.schema, t.name)
}

pub open spec fn view_ref(v: SqlViewModel) -> ViewReferenceModel {
    ViewReferenceModel { schema: v.schema, name: v.name }
}

pub open spec fn indices(n: nat) -> Seq<int> {
    Seq::new(n, |i: int| i)
}

pub open spec fn alter_column(t: TableReferenceModel, op: ColumnOpModel) -> SchemaChangeModel {
    SchemaChangeModel::AlterColumn { table: t, op }
}

pub open spec fn alter_table(t: TableReferenceModel, op: TableOpModel) -> SchemaChangeModel {
    SchemaChangeModel::AlterTable { table: t, op }
}

/// The name given to a single-column unique constraint: `table_column_key`.
pub open spec fn unique_key_name(table: Seq<char>, column: Seq<char>) -> Seq<char> {
    table + "_"@ + column + "_key"@
}

/// The USING cast that moves a column onto an enum type.
pub open spec fn text_cast(column: Seq<char>, sql_type: Seq<char>) -> Seq<char> {
    column + "::text::"@ + sql_type
}

// ---------------------------------------------------------------------------
// Column attributes

/// The changes for a column whose name stays (or that was renamed): unique
/// flag, type (cast through text when the new type is a desired enum),
/// nullability and default, in that order.
pub open spec fn attribute_changes(
    table: TableReferenceModel,
    old: ColumnModel,
    new: ColumnModel,
    desired_enums: Seq<(Seq<char>, EnumTypeModel)>,
) -> Seq<SchemaChangeModel> {
    let name = unique_key_name(table.name, new.name);
    let unique = if old.unique != new.unique {
        seq![alter_table(table, if new.unique {
            TableOpModel::AddConstraint(ConstraintModel {
                name,
                kind: ConstraintKindModel::Unique { columns: seq![new.name] },
            })
        } else {
            TableOpModel::DropConstraint(name)
        })]
    } else {
        seq![]
    };
    let retype = if old.sql_type != new.sql_type {
        seq![alter_column(table, ColumnOpModel::SetType {
            column: new.name,
            sql_type: new.sql_type,
            using: if lookup(desired_enums, new.sql_type) is Some {
                Some(text_cast(new.name, new.sql_type))
            } else {
                None
            },
        })]
    } else {
        seq![]
    };
    let nullability = if old.nullable != new.nullable {
        seq![alter_column(table, ColumnOpModel::SetNullable { column: new.name, nullable: new.nullable })]
    } else {
        seq![]
    };
    let default = if old.default != new.default {
        seq![alter_column(table, ColumnOpModel::SetDefault { column: new.name, default: new.default })]
    } else {
        seq![]
    };
    unique + retype + nullability + default
}

/// Column `c` of table `t` after one change is applied to the database:
/// a type, nullability or default change aimed at it sets that attribute,
/// a rename of it renames it, adding the single-column unique constraint on
/// it makes it unique and dropping that constraint (by its name) makes it
/// not unique; every other change leaves it as it is.
pub open spec fn column_after(t: TableReferenceModel, c: ColumnModel, change: SchemaChangeModel) -> ColumnModel {
    match change {
        SchemaChangeModel::AlterColumn { table, op } => if table != t {
            c
        } else {
            match op {
                ColumnOpModel::SetType { column, sql_type, .. } => if column == c.name { ColumnModel { sql_type, ..c } } else { c },
                ColumnOpModel::SetNullable { column, nullable } => if column == c.name { ColumnModel { nullable, ..c } } else { c },
                ColumnOpModel::SetDefault { column, default } => if column == c.name { ColumnModel { default, ..c } } else { c },
                ColumnOpModel::Rename { from, to } => if from == c.name { ColumnModel { name: to, ..c } } else { c },
                _ => c,
            }
        },
        SchemaChangeModel::AlterTable { table, op } => if table != t {
            c
        } else {
            match op {
                TableOpModel::AddConstraint(k) => if k.kind == (ConstraintKindModel::Unique { columns: seq![c.name] }) {
                    ColumnModel { unique: true, ..c }
                } else {
                    c
                },
                TableOpModel::DropConstraint(name) => if name == unique_key_name(t.name, c.name) {
                    ColumnModel { unique: false, ..c }
                } else {
                    c
                },
                _ => c,
            }
        },
        _ => c,
    }
}

/// Column `c` of table `t` after `changes` are applied in order.
pub open spec fn column_after_all(t: TableReferenceModel, c: ColumnModel, changes: Seq<SchemaChangeModel>) -> ColumnModel
    decreases changes.len(),
{
    if changes.len() == 0 {
        c
    } else {
        column_after(t, column_after_all(t, c, changes.drop_last()), changes.last())
    }
}

proof fn lemma_column_after_concat(t: TableReferenceModel, c: ColumnModel, a: Seq<SchemaChangeModel>, b: Seq<SchemaChangeModel>)
    ensures
        column_after_all(t, c, a + b) == column_after_all(t, column_after_all(t, c, a), b),
    decreases b.len(),
{
    if b.len() == 0 {
        assert(a + b =~= a);
    } else {
        lemma_column_after_concat(t, c, a, b.drop_last());
        assert((a + b).drop_last() =~= a + b.drop_last());
        assert((a + b).last() == b.last());
    }
}

proof fn lemma_column_after_one(t: TableReferenceModel, c: ColumnModel, x: SchemaChangeModel)
    ensures
        column_after_all(t, c, seq![x]) == column_after(t, c, x),
{
    assert(seq![x].drop_last() =~= Seq::<SchemaChangeModel>::empty());
    assert(column_after_all(t, c, Seq::<SchemaChangeModel>::empty()) == c);
    assert(seq![x].last() == x);
}

/// Applying a column's attribute changes to the old column (under its
/// current name) gives it the new column's type, nullability, default and
/// uniqueness, and keeps its name.
pub proof fn law_attribute_changes_reach_new(
    table: TableReferenceModel,
    old: ColumnModel,
    new: ColumnModel,
    desired_enums: Seq<(Seq<char>, EnumTypeModel)>,
)
    ensures
        ({
            let after = column_after_all(table, ColumnModel { name: new.name, ..old }, attribute_changes(table, old, new, desired_enums));
            &&& after.name == new.name
            &&& after.sql_type == new.sql_type
            &&& after.nullable == new.nullable
            &&& after.default == new.default
            &&& after.unique == new.unique
        }),
{
    let start = ColumnModel { name: new.name, ..old };
    let name = unique_key_name(table.name, new.name);
    let unique: Seq<SchemaChangeModel> = if old.unique != new.unique {
        seq![alter_table(table, if new.unique {
            TableOpModel::AddConstraint(ConstraintModel {
                name,
                kind: ConstraintKindModel::Unique { columns: seq![new.name] },
            })
        } else {
            TableOpModel::DropConstraint(name)
        })]
    } else {
        seq![]
    };
    let retype: Seq<SchemaChangeModel> = if old.sql_type != new.sql_type {
        seq![alter_column(table, ColumnOpModel::SetType {
            column: new.name,
            sql_type: new.sql_type,
            using: if lookup(desired_enums, new.sql_type) is Some {
                Some(text_cast(new.name, new.sql_type))
            } else {
                None
            },
        })]
    } else {
        seq![]
    };
    let nullability: Seq<SchemaChangeModel> = if old.nullable != new.nullable {
        seq![alter_column(table, ColumnOpModel::SetNullable { nullable: new.nullable, column: new.name })]
    } else {
        seq![]
    };
    let default: Seq<SchemaChangeModel> = if old.default != new.default {
        seq![alter_column(table, ColumnOpModel::SetDefault { default: new.default, column: new.name })]
    } else {
        seq![]
    };
    assert(attribute_changes(table, old, new, desired_enums) == unique + retype + nullability + default);
    lemma_column_after_concat(table, start, unique + retype + nullability, default);
    lemma_column_after_concat(table, start, unique + retype, nullability);
    lemma_column_after_concat(table, start, unique, retype);
    let c1 = column_after_all(table, start, unique);
    if unique.len() > 0 {
        lemma_column_after_one(table, start, unique[0]);
        assert(unique =~= seq![unique[0]]);
    } else {
        assert(c1 == start);
    }
    assert(c1.name == new.name && c1.unique == new.unique && c1.sql_type == old.sql_type
        && c1.nullable == old.nullable && c1.default == old.default);
    let c2 = column_after_all(table, c1, retype);
    if retype.len() > 0 {
        lemma_column_after_one(table, c1, retype[0]);
        assert(retype =~= seq![retype[0]]);
    }
    assert(c2.name == new.name && c2.unique == new.unique && c2.sql_type == new.sql_type
        && c2.nullable == old.nullable && c2.default == old.default);
    let c3 = column_after_all(table, c2, nullability);
    if nullability.len() > 0 {
        lemma_column_after_one(table, c2, nullability[0]);
        assert(nullability =~= seq![nullability[0]]);
    }
    let c4 = column_after_all(table, c3, default);
    if default.len() > 0 {
        lemma_column_after_one(table, c3, default[0]);
        assert(default =~= seq![default[0]]);
    }
}

pub fn push_change(changes: &mut Vec<SchemaChange>, change: SchemaChange)
    ensures
        changes_view(final(changes)@) == changes_view(old(changes)@).push(change@),
{
    changes.push(change);
    assert(changes_view(changes@) =~= changes_view(old(changes)@).push(change@));
}

pub fn extend_changes(changes: &mut Vec<SchemaChange>, more: Vec<SchemaChange>)
    ensures
        changes_view(final(changes)@) == changes_view(old(changes)@) + changes_view(more@),
{
    let mut more = more;
    let ghost m = more@;
    changes.append(&mut more);
    assert(changes_view(changes@) =~= changes_view(old(changes)@) + changes_view(m));
}

fn attribute_diff(
    table: &TableReference,
    old: &Column,
    new: &Column,
    desired: &DatabaseSchema,
) -> (changes: Vec<SchemaChange>)
    ensures
        changes_view(changes@) == attribute_changes(table@, old@, new@, desired@.enums),
{
    let mut changes: Vec<SchemaChange> = Vec::new();
    if old.unique != new.unique {
        let mut name = table.name.clone();
        name.append("_");
        name.append(new.name.as_str());
        name.append("_key");
        let op = if new.unique {
            let mut columns = Vec::new();
            columns.push(new.name.clone());
            let c = Constraint { name, kind: ConstraintKind::Unique { columns } };
            assert(strings_view(columns@) =~= seq![new.name@]);
            TableOp::AddConstraint(c)
        } else {
            TableOp::DropConstraint(name)
        };
        push_change(&mut changes, SchemaChange::AlterTable { table: table.duplicate(), op });
    }
    let ghost after_unique = changes_view(changes@);
    if old.sql_type != new.sql_type {
        let using = if desired.enums.contains_key(new.sql_type.as_str()) {
            let mut cast = new.name.clone();
            cast.append("::text::");
            cast.append(new.sql_type.as_str());
            Some(cast)
        } else {
            None
        };
        push_change(&mut changes, SchemaChange::AlterColumn {
            table: table.duplicate(),
            op: ColumnOp::SetType { column: new.name.clone(), sql_type: new.sql_type.clone(), using },
        });
    }
    let ghost after_type = changes_view(changes@);
    if old.nullable != new.nullable {
        push_change(&mut changes, SchemaChange::AlterColumn {
            table: table.duplicate(),
            op: ColumnOp::SetNullable { column: new.name.clone(), nullable: new.nullable },
        });
    }
    let ghost after_null = changes_view(changes@);
    if !opt_strings_equal(&old.default, &new.default) {
        push_change(&mut changes, SchemaChange::AlterColumn {
            table: table.duplicate(),
            op: ColumnOp::SetDefault { column: new.name.clone(), default: clone_opt_string(&new.default) },
        });
    }
    assert(changes_view(changes@) =~= attribute_changes(table@, old@, new@, desired@.enums));
    changes
}


// ---------------------------------------------------------------------------
// Constraints and indexes

/// A constraint is kept when the other side has one of the same name and kind.
pub open spec fn constraint_kept(others: Seq<ConstraintModel>, c: ConstraintModel) -> bool {
    match constraint_named(others, c.name) {
        Some(o) => o.kind == c.kind,
        None => false,
    }
}

/// An index is kept when the other side has an identical one of that name.
pub open spec fn index_kept(others: Seq<IndexModel>, i: IndexModel) -> bool {
    index_named(others, i.name) == Some(i)
}

pub open spec fn constraint_drops(old: TableModel, new: TableModel) -> Seq<SchemaChangeModel> {
    concat_map(old.constraints, |c: ConstraintModel|
        if constraint_kept(new.constraints, c) { seq![] }
        else { seq![alter_table(table_ref(new), TableOpModel::DropConstraint(c.name))] })
}

pub open spec fn constraint_adds(old: TableModel, new: TableModel) -> Seq<SchemaChangeModel> {
    concat_map(new.constraints, |c: ConstraintModel|
        if constraint_kept(old.constraints, c) { seq![] }
        else { seq![alter_table(table_ref(new), TableOpModel::AddConstraint(c))] })
}

pub open spec fn index_drops(old: TableModel, new: TableModel) -> Seq<SchemaChangeModel> {
    concat_map(old.indexes, |i: IndexModel|
        if index_kept(new.indexes, i) { seq![] }
        else { seq![alter_table(table_ref(new), TableOpModel::DropIndex { schema: old.schema, name: i.name })] })
}

pub open spec fn index_adds(old: TableModel, new: TableModel) -> Seq<SchemaChangeModel> {
    concat_map(new.indexes, |i: IndexModel|
        if index_kept(old.indexes, i) { seq![] }
        else { seq![alter_table(table_ref(new), TableOpModel::CreateIndex(i))] })
}

/// Constraints and indexes diffed by name: changed or vanished ones are
/// dropped, then changed or new ones added.
pub open spec fn constraint_changes(old: TableModel, new: TableModel) -> Seq<SchemaChangeModel> {
    constraint_drops(old, new) + constraint_adds(old, new) + index_drops(old, new) + index_adds(old, new)
}

#[verifier::loop_isolation(false)]
fn constraint_diff(old: &Table, new: &Table) -> (changes: Vec<SchemaChange>)
    ensures
        changes_view(changes@) == constraint_changes(old@, new@),
{
    let table = new.reference();
    let mut changes: Vec<SchemaChange> = Vec::new();

    let ghost f1 = |c: ConstraintModel|
        if constraint_kept(new@.constraints, c) { seq![] }
        else { seq![alter_table(table_ref(new@), TableOpModel::DropConstraint(c.name))] };
    let mut i: usize = 0;
    while i < old.constraints.len()
        invariant
            i <= old.constraints.len(),
            table@ == table_ref(new@),
            changes_view(changes@) == concat_map(old@.constraints.take(i as int), f1),
        decreases old.constraints.len() - i,
    {
        let c = &old.constraints[i];
        let kept = match new.constraint(c.name.as_str()) {
            Some(n) => n.kind.same_as(&c.kind),
            None => false,
        };
        if !kept {
            push_change(&mut changes, SchemaChange::AlterTable { table: table.duplicate(), op: TableOp::DropConstraint(c.name.clone()) });
        }
        proof { lemma_concat_map_step(old@.constraints, f1, i as int); }
        i = i + 1;
    }
    assert(old@.constraints.take(old.constraints.len() as int) =~= old@.constraints);
    let ghost part1 = changes_view(changes@);

    let ghost f2 = |c: ConstraintModel|
        if constraint_kept(old@.constraints, c) { seq![] }
        else { seq![alter_table(table_ref(new@), TableOpModel::AddConstraint(c))] };
    let mut i: usize = 0;
    while i < new.constraints.len()
        invariant
            i <= new.constraints.len(),
            table@ == table_ref(new@),
            changes_view(changes@) == part1 + concat_map(new@.constraints.take(i as int), f2),
        decreases new.constraints.len() - i,
    {
        let c = &new.constraints[i];
        let kept = match old.constraint(c.name.as_str()) {
            Some(o) => o.kind.same_as(&c.kind),
            None => false,
        };
        if !kept {
            push_change(&mut changes, SchemaChange::AlterTable { table: table.duplicate(), op: TableOp::AddConstraint(c.duplicate()) });
        }
        proof { lemma_concat_map_step(new@.constraints, f2, i as int); }
        assert(changes_view(changes@) =~= part1 + concat_map(new@.constraints.take(i + 1), f2));
        i = i + 1;
    }
    assert(new@.constraints.take(new.constraints.len() as int) =~= new@.constraints);
    let ghost part2 = changes_view(changes@);

    let ghost f3 = |x: IndexModel|
        if index_kept(new@.indexes, x) { seq![] }
        else { seq![alter_table(table_ref(new@), TableOpModel::DropIndex { schema: old@.schema, name: x.name })] };
    let mut i: usize = 0;
    while i < old.indexes.len()
        invariant
            i <= old.indexes.len(),
            table@ == table_ref(new@),
            changes_view(changes@) == part2 + concat_map(old@.indexes.take(i as int), f3),
        decreases old.indexes.len() - i,
    {
        let x = &old.indexes[i];
        let kept = match new.index(x.name.as_str()) {
            Some(n) => n.same_as(x),
            None => false,
        };
        if !kept {
            push_change(&mut changes, SchemaChange::AlterTable {
                table: table.duplicate(),
                op: TableOp::DropIndex { schema: old.schema.clone(), name: x.name.clone() },
            });
        }
        proof { lemma_concat_map_step(old@.indexes, f3, i as int); }
        assert(changes_view(changes@) =~= part2 + concat_map(old@.indexes.take(i + 1), f3));
        i = i + 1;
    }
    assert(old@.indexes.take(old.indexes.len() as int) =~= old@.indexes);
    let ghost part3 = changes_view(changes@);

    let ghost f4 = |x: IndexModel|
        if index_kept(old@.indexes, x) { seq![] }
        else { seq![alter_table(table_ref(new@), TableOpModel::CreateIndex(x))] };
    let mut i: usize = 0;
    while i < new.indexes.len()
        invariant
            i <= new.indexes.len(),
            table@ == table_ref(new@),
            changes_view(changes@) == part3 + concat_map(new@.indexes.take(i as int), f4),
        decreases new.indexes.len() - i,
    {
        let x = &new.indexes[i];
        let kept = match old.index(x.name.as_str()) {
            Some(o) => o.same_as(x),
            None => false,
        };
        if !kept {
            push_change(&mut changes, SchemaChange::AlterTable { table: table.duplicate(), op: TableOp::CreateIndex(x.duplicate()) });
        }
        proof { lemma_concat_map_step(new@.indexes, f4, i as int); }
        assert(changes_view(changes@) =~= part3 + concat_map(new@.indexes.take(i + 1), f4));
        i = i + 1;
    }
    assert(new@.indexes.take(new.indexes.len() as int) =~= new@.indexes);
    changes
}


// ---------------------------------------------------------------------------
// Rename plans

/// Which dropped tables become which created tables, and which removed
/// columns become which added columns. Tables are entry positions in the
/// baseline and desired maps; a column entry is (desired table position,
/// old column position, new column position).
pub struct RenamePlanModel {
    pub tables: Seq<(int, int)>,
    pub columns: Seq<(int, int, int)>,
}

pub struct RenamePlan {
    pub tables: Vec<(usize, usize)>,
    pub columns: Vec<(usize, usize, usize)>,
}

impl View for RenamePlan {
    type V = RenamePlanModel;

    open spec fn view(&self) -> RenamePlanModel {
        RenamePlanModel {
            tables: self.tables@.map_values(|t: (usize, usize)| (t.0 as int, t.1 as int)),
            columns: self.columns@.map_values(|c: (usize, usize, usize)| (c.0 as int, c.1 as int, c.2 as int)),
        }
    }
}

/// The plan that renames nothing.
pub open spec fn no_renames() -> RenamePlanModel {
    RenamePlanModel { tables: seq![], columns: seq![] }
}

/// The baseline table a created table is renamed from, if any.
pub open spec fn renamed_into(j: int) -> spec_fn((int, int)) -> bool {
    |t: (int, int)| t.1 == j
}

pub open spec fn rename_source(p: RenamePlanModel, j: int) -> Option<int> {
    match find_first(p.tables, renamed_into(j)) {
        Some(t) => Some(t.0),
        None => None,
    }
}

pub open spec fn renamed_away(p: RenamePlanModel, i: int) -> bool {
    exists|k: int| 0 <= k < p.tables.len() && p.tables[k].0 == i
}

pub open spec fn renames_to(dj: int, j: int) -> spec_fn((int, int, int)) -> bool {
    |c: (int, int, int)| c.0 == dj && c.2 == j
}

/// The old column an added column of desired table `dj` is renamed from.
pub open spec fn column_source(p: RenamePlanModel, dj: int, j: int) -> Option<int> {
    match find_first(p.columns, renames_to(dj, j)) {
        Some(c) => Some(c.1),
        None => None,
    }
}

pub open spec fn column_renamed_away(p: RenamePlanModel, dj: int, o: int) -> bool {
    exists|k: int| 0 <= k < p.columns.len() && p.columns[k].0 == dj && p.columns[k].1 == o
}

/// Every column rename of table `dj` points into the two column lists.
pub open spec fn column_plan_in_bounds(p: RenamePlanModel, dj: int, old_len: int, new_len: int) -> bool {
    forall|k: int| 0 <= k < p.columns.len() && p.columns[k].0 == dj ==>
        0 <= #[trigger] p.columns[k].1 < old_len && 0 <= p.columns[k].2 < new_len
}

#[verifier::loop_isolation(false)]
fn column_source_of(plan: &RenamePlan, dj: usize, j: usize) -> (o: Option<usize>)
    ensures
        match o {
            Some(o) => column_source(plan@, dj as int, j as int) == Some(o as int),
            None => column_source(plan@, dj as int, j as int) is None,
        },
{
    let ghost cs = plan@.columns;
    let ghost p = renames_to(dj as int, j as int);
    let mut k: usize = 0;
    assert(cs.skip(0) =~= cs);
    while k < plan.columns.len()
        invariant
            k <= plan.columns.len(),
            cs == plan@.columns,
            cs.len() == plan.columns@.len(),
            p == renames_to(dj as int, j as int),
            find_first(cs, p) == find_first(cs.skip(k as int), p),
        decreases plan.columns.len() - k,
    {
        let (t, o, n) = plan.columns[k];
        assert(cs[k as int] == (t as int, o as int, n as int));
        if t == dj && n == j {
            assert(cs.skip(k as int)[0] == cs[k as int]);
            assert(p(cs.skip(k as int)[0]));
            return Some(o);
        }
        proof { lemma_find_first_skip(cs, p, k as int); }
        k = k + 1;
    }
    assert(cs.skip(k as int).len() == 0);
    None
}

fn column_renamed_away_exec(plan: &RenamePlan, dj: usize, o: usize) -> (r: bool)
    ensures
        r == column_renamed_away(plan@, dj as int, o as int),
{
    let mut k: usize = 0;
    while k < plan.columns.len()
        invariant
            k <= plan.columns.len(),
            forall|m: int| 0 <= m < k ==> !(plan@.columns[m].0 == dj && plan@.columns[m].1 == o),
        decreases plan.columns.len() - k,
    {
        let (t, from, _) = plan.columns[k];
        if t == dj && from == o {
            assert(plan@.columns[k as int].0 == dj && plan@.columns[k as int].1 == o);
            return true;
        }
        k = k + 1;
    }
    false
}

// ---------------------------------------------------------------------------
// Columns

pub open spec fn column_adds(
    old: TableModel,
    new: TableModel,
    dj: int,
    p: RenamePlanModel,
    desired_enums: Seq<(Seq<char>, EnumTypeModel)>,
) -> Seq<SchemaChangeModel> {
    let t = table_ref(new);
    concat_map(indices(new.columns.len()), |j: int|
        if column_named(old.columns, new.columns[j].name) is Some {
            seq![]
        } else {
            match column_source(p, dj, j) {
                Some(o) => seq![alter_column(t, ColumnOpModel::Rename { from: old.columns[o].name, to: new.columns[j].name })]
                    + attribute_changes(t, old.columns[o], new.columns[j], desired_enums),
                None => seq![alter_column(t, ColumnOpModel::Add(new.columns[j]))],
            }
        })
}

pub open spec fn column_drops(old: TableModel, new: TableModel, dj: int, p: RenamePlanModel) -> Seq<SchemaChangeModel> {
    concat_map(indices(old.columns.len()), |o: int|
        if column_named(new.columns, old.columns[o].name) is Some || column_renamed_away(p, dj, o) {
            seq![]
        } else {
            seq![alter_column(table_ref(new), ColumnOpModel::Drop(old.columns[o].name))]
        })
}

pub open spec fn column_retypes(
    old: TableModel,
    new: TableModel,
    desired_enums: Seq<(Seq<char>, EnumTypeModel)>,
) -> Seq<SchemaChangeModel> {
    concat_map(new.columns, |c: ColumnModel|
        match column_named(old.columns, c.name) {
            Some(oc) => attribute_changes(table_ref(new), oc, c, desired_enums),
            None => seq![],
        })
}

/// Column changes between an old and a new table: added columns (or renames
/// the plan chose for them), then dropped columns, then attribute changes of
/// columns present on both sides.
pub open spec fn column_changes(
    old: TableModel,
    new: TableModel,
    dj: int,
    p: RenamePlanModel,
    desired_enums: Seq<(Seq<char>, EnumTypeModel)>,
) -> Seq<SchemaChangeModel> {
    column_adds(old, new, dj, p, desired_enums) + column_drops(old, new, dj, p) + column_retypes(old, new, desired_enums)
}

#[verifier::loop_isolation(false)]
fn column_diff(old: &Table, new: &Table, dj: usize, plan: &RenamePlan, desired: &DatabaseSchema) -> (changes: Vec<SchemaChange>)
    requires
        column_plan_in_bounds(plan@, dj as int, old.columns.len() as int, new.columns.len() as int),
    ensures
        changes_view(changes@) == column_changes(old@, new@, dj as int, plan@, desired@.enums),
{
    let table = new.reference();
    let mut changes: Vec<SchemaChange> = Vec::new();
    let ghost t = table_ref(new@);
    let ghost oc = old@.columns;
    let ghost nc = new@.columns;
    let ghost denums = desired@.enums;

    let ghost f1 = |j: int|
        if column_named(oc, nc[j].name) is Some {
            seq![]
        } else {
            match column_source(plan@, dj as int, j) {
                Some(o) => seq![alter_column(t, ColumnOpModel::Rename { from: oc[o].name, to: nc[j].name })]
                    + attribute_changes(t, oc[o], nc[j], denums),
                None => seq![alter_column(t, ColumnOpModel::Add(nc[j]))],
            }
        };
    let ghost ns = indices(new.columns.len() as nat);
    let mut j: usize = 0;
    while j < new.columns.len()
        invariant
            j <= new.columns.len(),
            table@ == t,
            oc == old@.columns,
            nc == new@.columns,
            denums == desired@.enums,
            ns == indices(new.columns.len() as nat),
            column_plan_in_bounds(plan@, dj as int, old.columns.len() as int, new.columns.len() as int),
            changes_view(changes@) == concat_map(ns.take(j as int), f1),
        decreases new.columns.len() - j,
    {
        let c = &new.columns[j];
        if old.column(c.name.as_str()).is_none() {
            match column_source_of(plan, dj, j) {
                Some(o) => {
                    proof {
                        let pr = renames_to(dj as int, j as int);
                        lemma_find_first_some(plan@.columns, pr);
                        let k = choose|k: int| 0 <= k < plan@.columns.len() && plan@.columns[k] == find_first(plan@.columns, pr)->0 && pr(plan@.columns[k]);
                        assert(plan@.columns[k].1 < old.columns.len());
                    }
                    let from = &old.columns[o];
                    push_change(&mut changes, SchemaChange::AlterColumn {
                        table: table.duplicate(),
                        op: ColumnOp::Rename { from: from.name.clone(), to: c.name.clone() },
                    });
                    let more = attribute_diff(&table, from, c, desired);
                    extend_changes(&mut changes, more);
                },
                None => {
                    push_change(&mut changes, SchemaChange::AlterColumn { table: table.duplicate(), op: ColumnOp::Add(c.duplicate()) });
                },
            }
        }
        proof { lemma_concat_map_step(ns, f1, j as int); }
        assert(ns[j as int] == j);
        assert(changes_view(changes@) =~= concat_map(ns.take(j + 1), f1));
        j = j + 1;
    }
    assert(ns.take(new.columns.len() as int) =~= ns);
    let ghost part1 = changes_view(changes@);

    let ghost f2 = |o: int|
        if column_named(nc, oc[o].name) is Some || column_renamed_away(plan@, dj as int, o) {
            seq![]
        } else {
            seq![alter_column(t, ColumnOpModel::Drop(oc[o].name))]
        };
    let ghost os = indices(old.columns.len() as nat);
    let mut o: usize = 0;
    while o < old.columns.len()
        invariant
            o <= old.columns.len(),
            table@ == t,
            oc == old@.columns,
            nc == new@.columns,
            os == indices(old.columns.len() as nat),
            changes_view(changes@) == part1 + concat_map(os.take(o as int), f2),
        decreases old.columns.len() - o,
    {
        let c = &old.columns[o];
        if new.column(c.name.as_str()).is_none() && !column_renamed_away_exec(plan, dj, o) {
            push_change(&mut changes, SchemaChange::AlterColumn { table: table.duplicate(), op: ColumnOp::Drop(c.name.clone()) });
        }
        proof { lemma_concat_map_step(os, f2, o as int); }
        assert(os[o as int] == o);
        assert(changes_view(changes@) =~= part1 + concat_map(os.take(o + 1), f2));
        o = o + 1;
    }
    assert(os.take(old.columns.len() as int) =~= os);
    let ghost part2 = changes_view(changes@);

    let ghost f3 = |c: ColumnModel|
        match column_named(oc, c.name) {
            Some(old_c) => attribute_changes(t, old_c, c, denums),
            None => seq![],
        };
    let mut j: usize = 0;
    while j < new.columns.len()
        invariant
            j <= new.columns.len(),
            table@ == t,
            oc == old@.columns,
            nc == new@.columns,
            denums == desired@.enums,
            changes_view(changes@) == part2 + concat_map(nc.take(j as int), f3),
        decreases new.columns.len() - j,
    {
        let c = &new.columns[j];
        match old.column(c.name.as_str()) {
            Some(old_c) => {
                let more = attribute_diff(&table, old_c, c, desired);
                extend_changes(&mut changes, more);
            },
            None => {},
        }
        proof { lemma_concat_map_step(nc, f3, j as int); }
        assert(changes_view(changes@) =~= part2 + concat_map(nc.take(j + 1), f3));
        j = j + 1;
    }
    assert(nc.take(new.columns.len() as int) =~= nc);
    changes
}


// ---------------------------------------------------------------------------
// Schemas

/// The schema part of a qualified enum name: what precedes its first dot.
pub open spec fn enum_schema(name: Seq<char>) -> Option<Seq<char>> {
    match char_position(name, '.') {
        Some(i) => Some(name.take(i)),
        None => None,
    }
}

/// The keys of a set built by inserting `names` in order.
pub open spec fn name_set(names: Seq<Seq<char>>) -> Seq<(Seq<char>, bool)>
    decreases names.len(),
{
    if names.len() == 0 {
        seq![]
    } else {
        insert_entry(name_set(names.drop_last()), names.last(), true)
    }
}

/// Every schema name the schema mentions, in traversal order (tables, views,
/// then the schema part of qualified enum names).
pub open spec fn schema_mentions(s: DatabaseSchemaModel) -> Seq<Seq<char>> {
    concat_map(s.tables, |e: (Seq<char>, TableModel)| seq![e.1.schema])
        + concat_map(s.views, |e: (Seq<char>, SqlViewModel)| seq![e.1.schema])
        + concat_map(s.enums, |e: (Seq<char>, EnumTypeModel)| match enum_schema(e.1.name) {
            Some(x) => seq![x],
            None => seq![],
        })
}

/// The distinct schemas a database schema lives in, in ascending order.
pub open spec fn schemas_of(s: DatabaseSchemaModel) -> Seq<(Seq<char>, bool)> {
    name_set(schema_mentions(s))
}

proof fn lemma_name_set_add(prefix: Seq<Seq<char>>, more: Seq<Seq<char>>)
    requires
        more.len() <= 1,
    ensures
        name_set(prefix + more) == if more.len() == 0 { name_set(prefix) } else { insert_entry(name_set(prefix), more[0], true) },
{
    if more.len() == 0 {
        assert(prefix + more =~= prefix);
    } else {
        assert((prefix + more).drop_last() =~= prefix);
    }
}

/// The schemas `s` lives in, as an ordered set.
#[verifier::loop_isolation(false)]
pub fn schema_set(s: &DatabaseSchema) -> (set: NamedMap<bool>)
    ensures
        set@ == schemas_of(s@),
{
    let mut set: NamedMap<bool> = NamedMap::new();
    let ghost f1 = |e: (Seq<char>, TableModel)| seq![e.1.schema];
    let ghost f2 = |e: (Seq<char>, SqlViewModel)| seq![e.1.schema];
    let ghost f3 = |e: (Seq<char>, EnumTypeModel)| match enum_schema(e.1.name) {
        Some(x) => seq![x],
        None => seq![],
    };
    let mut i: usize = 0;
    while i < s.tables.len()
        invariant
            i <= s@.tables.len(),
            set@ == name_set(concat_map(s@.tables.take(i as int), f1)),
        decreases s@.tables.len() - i,
    {
        let t = s.tables.value_at(i);
        set.insert(t.schema.clone(), true);
        proof {
            lemma_concat_map_step(s@.tables, f1, i as int);
            lemma_name_set_add(concat_map(s@.tables.take(i as int), f1), f1(s@.tables[i as int]));
        }
        i = i + 1;
    }
    assert(s@.tables.take(s@.tables.len() as int) =~= s@.tables);
    let ghost p1 = concat_map(s@.tables, f1);
    let mut i: usize = 0;
    while i < s.views.len()
        invariant
            i <= s@.views.len(),
            set@ == name_set(p1 + concat_map(s@.views.take(i as int), f2)),
        decreases s@.views.len() - i,
    {
        let v = s.views.value_at(i);
        set.insert(v.schema.clone(), true);
        proof {
            lemma_concat_map_step(s@.views, f2, i as int);
            assert(p1 + concat_map(s@.views.take(i + 1), f2) =~= (p1 + concat_map(s@.views.take(i as int), f2)) + f2(s@.views[i as int]));
            lemma_name_set_add(p1 + concat_map(s@.views.take(i as int), f2), f2(s@.views[i as int]));
        }
        i = i + 1;
    }
    assert(s@.views.take(s@.views.len() as int) =~= s@.views);
    let ghost p2 = p1 + concat_map(s@.views, f2);
    let mut i: usize = 0;
    while i < s.enums.len()
        invariant
            i <= s@.enums.len(),
            set@ == name_set(p2 + concat_map(s@.enums.take(i as int), f3)),
        decreases s@.enums.len() - i,
    {
        let e = s.enums.value_at(i);
        match find_char(e.name.as_str(), '.') {
            Some(k) => {
                proof {
                    let w = choose|w: int| 0 <= w < e.name@.len() && e.name@[w] == '.' && forall|j: int| 0 <= j < w ==> e.name@[j] != '.';
                }
                let prefix = e.name.as_str().substring_char(0, k);
                set.insert(prefix.to_owned(), true);
            },
            None => {},
        }
        proof {
            lemma_concat_map_step(s@.enums, f3, i as int);
            assert(p2 + concat_map(s@.enums.take(i + 1), f3) =~= (p2 + concat_map(s@.enums.take(i as int), f3)) + f3(s@.enums[i as int]));
            lemma_name_set_add(p2 + concat_map(s@.enums.take(i as int), f3), f3(s@.enums[i as int]));
        }
        i = i + 1;
    }
    assert(s@.enums.take(s@.enums.len() as int) =~= s@.enums);
    set
}

/// `CREATE SCHEMA` for every non-`public` schema the desired side needs and
/// the baseline lacks, in ascending order.
pub open spec fn schema_creates(b: DatabaseSchemaModel, d: DatabaseSchemaModel) -> Seq<SchemaChangeModel> {
    concat_map(keys_of(schemas_of(d)), |x: Seq<char>|
        if x != "public"@ && lookup(schemas_of(b), x) is None {
            seq![SchemaChangeModel::CreateSchema(x)]
        } else {
            seq![]
        })
}

#[verifier::loop_isolation(false)]
fn diff_schemas(b: &DatabaseSchema, d: &DatabaseSchema) -> (changes: Vec<SchemaChange>)
    ensures
        changes_view(changes@) == schema_creates(b@, d@),
{
    let existing = schema_set(b);
    let wanted = schema_set(d);
    let mut changes: Vec<SchemaChange> = Vec::new();
    let ghost ks = keys_of(schemas_of(d@));
    let ghost f = |x: Seq<char>|
        if x != "public"@ && lookup(schemas_of(b@), x) is None {
            seq![SchemaChangeModel::CreateSchema(x)]
        } else {
            seq![]
        };
    let mut i: usize = 0;
    while i < wanted.len()
        invariant
            i <= wanted@.len(),
            wanted@ == schemas_of(d@),
            existing@ == schemas_of(b@),
            ks == keys_of(schemas_of(d@)),
            changes_view(changes@) == concat_map(ks.take(i as int), f),
        decreases wanted@.len() - i,
    {
        let name = wanted.key_at(i);
        if !str_eq(name.as_str(), "public") && !existing.contains_key(name.as_str()) {
            push_change(&mut changes, SchemaChange::CreateSchema(name.clone()));
        }
        proof { lemma_concat_map_step(ks, f, i as int); }
        i = i + 1;
    }
    assert(ks.take(ks.len() as int) =~= ks);
    changes
}

// ---------------------------------------------------------------------------
// Views

/// A baseline view is dropped when it is gone or its definition changed.
pub open spec fn view_drops(b: DatabaseSchemaModel, d: DatabaseSchemaModel) -> Seq<SchemaChangeModel> {
    concat_map(b.views, |e: (Seq<char>, SqlViewModel)|
        match lookup(d.views, e.0) {
            Some(dv) => if dv.definition != e.1.definition { seq![SchemaChangeModel::DropView(view_ref(e.1))] } else { seq![] },
            None => seq![SchemaChangeModel::DropView(view_ref(e.1))],
        })
}

/// A desired view is created when it is new or its definition changed.
pub open spec fn view_creates(b: DatabaseSchemaModel, d: DatabaseSchemaModel) -> Seq<SchemaChangeModel> {
    concat_map(d.views, |e: (Seq<char>, SqlViewModel)|
        match lookup(b.views, e.0) {
            Some(bv) => if bv.definition != e.1.definition { seq![SchemaChangeModel::CreateView(e.1)] } else { seq![] },
            None => seq![SchemaChangeModel::CreateView(e.1)],
        })
}

#[verifier::loop_isolation(false)]
fn drop_views(b: &DatabaseSchema, d: &DatabaseSchema) -> (changes: Vec<SchemaChange>)
    ensures
        changes_view(changes@) == view_drops(b@, d@),
{
    let mut changes: Vec<SchemaChange> = Vec::new();
    let ghost f = |e: (Seq<char>, SqlViewModel)|
        match lookup(d@.views, e.0) {
            Some(dv) => if dv.definition != e.1.definition { seq![SchemaChangeModel::DropView(view_ref(e.1))] } else { seq![] },
            None => seq![SchemaChangeModel::DropView(view_ref(e.1))],
        };
    let mut i: usize = 0;
    while i < b.views.len()
        invariant
            i <= b@.views.len(),
            changes_view(changes@) == concat_map(b@.views.take(i as int), f),
        decreases b@.views.len() - i,
    {
        let name = b.views.key_at(i);
        let view = b.views.value_at(i);
        let gone_or_changed = match d.views.get(name.as_str()) {
            None => true,
            Some(desired_view) => desired_view.definition != view.definition,
        };
        if gone_or_changed {
            push_change(&mut changes, SchemaChange::DropView(view.reference()));
        }
        proof { lemma_concat_map_step(b@.views, f, i as int); }
        i = i + 1;
    }
    assert(b@.views.take(b@.views.len() as int) =~= b@.views);
    changes
}

#[verifier::loop_isolation(false)]
fn create_views(b: &DatabaseSchema, d: &DatabaseSchema) -> (changes: Vec<SchemaChange>)
    ensures
        changes_view(changes@) == view_creates(b@, d@),
{
    let mut changes: Vec<SchemaChange> = Vec::new();
    let ghost f = |e: (Seq<char>, SqlViewModel)|
        match lookup(b@.views, e.0) {
            Some(bv) => if bv.definition != e.1.definition { seq![SchemaChangeModel::CreateView(e.1)] } else { seq![] },
            None => seq![SchemaChangeModel::CreateView(e.1)],
        };
    let mut i: usize = 0;
    while i < d.views.len()
        invariant
            i <= d@.views.len(),
            changes_view(changes@) == concat_map(d@.views.take(i as int), f),
        decreases d@.views.len() - i,
    {
        let name = d.views.key_at(i);
        let view = d.views.value_at(i);
        let new_or_changed = match b.views.get(name.as_str()) {
            None => true,
            Some(baseline_view) => baseline_view.definition != view.definition,
        };
        if new_or_changed {
            push_change(&mut changes, SchemaChange::CreateView(view.duplicate()));
        }
        proof { lemma_concat_map_step(d@.views, f, i as int); }
        i = i + 1;
    }
    assert(d@.views.take(d@.views.len() as int) =~= d@.views);
    changes
}

// ---------------------------------------------------------------------------
// Enums

pub open spec fn dependent_of(t: TableModel, c: ColumnModel) -> EnumDependentModel {
    EnumDependentModel { table: table_ref(t), column: c.name, nullable: c.nullable, default: c.default }
}

/// Every column storing `enum_name` in a baseline table that is not `doomed`.
pub open spec fn enum_dependents(b: DatabaseSchemaModel, enum_name: Seq<char>, doomed: Seq<Seq<char>>) -> Seq<EnumDependentModel> {
    concat_map(b.tables, |e: (Seq<char>, TableModel)|
        if doomed.contains(table_key(e.1)) {
            seq![]
        } else {
            concat_map(e.1.columns, |c: ColumnModel|
                if c.sql_type == enum_name { seq![dependent_of(e.1, c)] } else { seq![] })
        })
}

/// New enums are created; an enum whose values changed in any way is
/// replaced, re-pointing its surviving dependent columns.
pub open spec fn enum_changes(b: DatabaseSchemaModel, d: DatabaseSchemaModel, doomed: Seq<Seq<char>>) -> Seq<SchemaChangeModel> {
    concat_map(d.enums, |e: (Seq<char>, EnumTypeModel)|
        match lookup(b.enums, e.0) {
            None => seq![SchemaChangeModel::CreateEnum(e.1)],
            Some(be) => if be.values == e.1.values {
                seq![]
            } else {
                seq![SchemaChangeModel::ReplaceEnum { old: be, new: e.1, dependents: enum_dependents(b, e.0, doomed) }]
            },
        })
}

/// Enums gone from the desired side are dropped.
pub open spec fn enum_drops(b: DatabaseSchemaModel, d: DatabaseSchemaModel) -> Seq<SchemaChangeModel> {
    concat_map(b.enums, |e: (Seq<char>, EnumTypeModel)|
        if lookup(d.enums, e.0) is Some { seq![] } else { seq![SchemaChangeModel::DropEnum(e.0)] })
}

pub fn contains_string(v: &Vec<String>, s: &str) -> (found: bool)
    ensures
        found == strings_view(v@).contains(s@),
{
    let mut i: usize = 0;
    while i < v.len()
        invariant
            i <= v.len(),
            forall|j: int| 0 <= j < i ==> v@[j]@ != s@,
        decreases v.len() - i,
    {
        if str_eq(v[i].as_str(), s) {
            assert(strings_view(v@)[i as int] == s@);
            return true;
        }
        i = i + 1;
    }
    false
}

#[verifier::loop_isolation(false)]
fn table_dependents(t: &Table, enum_name: &str) -> (deps: Vec<EnumDependent>)
    ensures
        dependents_view(deps@) == concat_map(t@.columns, |c: ColumnModel|
            if c.sql_type == enum_name@ { seq![dependent_of(t@, c)] } else { seq![] }),
{
    let ghost f = |c: ColumnModel| if c.sql_type == enum_name@ { seq![dependent_of(t@, c)] } else { seq![] };
    let mut deps: Vec<EnumDependent> = Vec::new();
    let mut i: usize = 0;
    while i < t.columns.len()
        invariant
            i <= t.columns.len(),
            dependents_view(deps@) == concat_map(t@.columns.take(i as int), f),
        decreases t.columns.len() - i,
    {
        let c = &t.columns[i];
        if str_eq(c.sql_type.as_str(), enum_name) {
            deps.push(EnumDependent {
                table: t.reference(),
                column: c.name.clone(),
                nullable: c.nullable,
                default: clone_opt_string(&c.default),
            });
        }
        proof { lemma_concat_map_step(t@.columns, f, i as int); }
        assert(dependents_view(deps@) =~= concat_map(t@.columns.take(i + 1), f));
        i = i + 1;
    }
    assert(t@.columns.take(t.columns.len() as int) =~= t@.columns);
    deps
}

#[verifier::loop_isolation(false)]
fn find_dependents(b: &DatabaseSchema, enum_name: &str, doomed: &Vec<String>) -> (deps: Vec<EnumDependent>)
    ensures
        dependents_view(deps@) == enum_dependents(b@, enum_name@, strings_view(doomed@)),
{
    let ghost f = |e: (Seq<char>, TableModel)|
        if strings_view(doomed@).contains(table_key(e.1)) {
            seq![]
        } else {
            concat_map(e.1.columns, |c: ColumnModel|
                if c.sql_type == enum_name@ { seq![dependent_of(e.1, c)] } else { seq![] })
        };
    let mut deps: Vec<EnumDependent> = Vec::new();
    let mut i: usize = 0;
    while i < b.tables.len()
        invariant
            i <= b@.tables.len(),
            dependents_view(deps@) == concat_map(b@.tables.take(i as int), f),
        decreases b@.tables.len() - i,
    {
        let t = b.tables.value_at(i);
        let key = t.qualified_name();
        if !contains_string(doomed, key.as_str()) {
            let mut more = table_dependents(t, enum_name);
            let ghost before = deps@;
            deps.append(&mut more);
            assert(dependents_view(deps@) =~= dependents_view(before) + f(b@.tables[i as int]));
        }
        proof { lemma_concat_map_step(b@.tables, f, i as int); }
        i = i + 1;
    }
    assert(b@.tables.take(b@.tables.len() as int) =~= b@.tables);
    deps
}

#[verifier::loop_isolation(false)]
fn diff_enums(b: &DatabaseSchema, d: &DatabaseSchema, doomed: &Vec<String>) -> (changes: Vec<SchemaChange>)
    ensures
        changes_view(changes@) == enum_changes(b@, d@, strings_view(doomed@)),
{
    let ghost f = |e: (Seq<char>, EnumTypeModel)|
        match lookup(b@.enums, e.0) {
            None => seq![SchemaChangeModel::CreateEnum(e.1)],
            Some(be) => if be.values == e.1.values {
                seq![]
            } else {
                seq![SchemaChangeModel::ReplaceEnum { old: be, new: e.1, dependents: enum_dependents(b@, e.0, strings_view(doomed@)) }]
            },
        };
    let mut changes: Vec<SchemaChange> = Vec::new();
    let mut i: usize = 0;
    while i < d.enums.len()
        invariant
            i <= d@.enums.len(),
            changes_view(changes@) == concat_map(d@.enums.take(i as int), f),
        decreases d@.enums.len() - i,
    {
        let name = d.enums.key_at(i);
        let desired_enum = d.enums.value_at(i);
        match b.enums.get(name.as_str()) {
            None => {
                push_change(&mut changes, SchemaChange::CreateEnum(desired_enum.duplicate()));
            },
            Some(baseline_enum) => {
                if !strings_equal(&baseline_enum.values, &desired_enum.values) {
                    let dependents = find_dependents(b, name.as_str(), doomed);
                    push_change(&mut changes, SchemaChange::ReplaceEnum {
                        old: baseline_enum.duplicate(),
                        new: desired_enum.duplicate(),
                        dependents,
                    });
                }
            },
        }
        proof { lemma_concat_map_step(d@.enums, f, i as int); }
        i = i + 1;
    }
    assert(d@.enums.take(d@.enums.len() as int) =~= d@.enums);
    changes
}

#[verifier::loop_isolation(false)]
fn drop_enums(b: &DatabaseSchema, d: &DatabaseSchema) -> (changes: Vec<SchemaChange>)
    ensures
        changes_view(changes@) == enum_drops(b@, d@),
{
    let ghost f = |e: (Seq<char>, EnumTypeModel)|
        if lookup(d@.enums, e.0) is Some { seq![] } else { seq![SchemaChangeModel::DropEnum(e.0)] };
    let mut changes: Vec<SchemaChange> = Vec::new();
    let mut i: usize = 0;
    while i < b.enums.len()
        invariant
            i <= b@.enums.len(),
            changes_view(changes@) == concat_map(b@.enums.take(i as int), f),
        decreases b@.enums.len() - i,
    {
        let name = b.enums.key_at(i);
        if !d.enums.contains_key(name.as_str()) {
            push_change(&mut changes, SchemaChange::DropEnum(name.clone()));
        }
        proof { lemma_concat_map_step(b@.enums, f, i as int); }
        i = i + 1;
    }
    assert(b@.enums.take(b@.enums.len() as int) =~= b@.enums);
    changes
}


// ---------------------------------------------------------------------------
// Deciding renames

/// One question put to a rename resolver, with the answer it gave.
pub enum RenameQuestion {
    /// Rename table `schema.from` to `schema.to`?
    Table { schema: Seq<char>, from: Seq<char>, to: Seq<char>, yes: bool },
    /// Rename column `from` of `table` to `to`?
    Column { table: TableReferenceModel, from: Seq<char>, to: Seq<char>, yes: bool },
}

/// Settles the inherently ambiguous "is this a rename or a drop and an add?"
/// question, which a schema diff alone cannot answer.
pub trait RenameResolver: Sized {
    /// Whether this resolver answers no to every proposed rename.
    spec fn declines_all(&self) -> bool;

    /// The resolver as it is after giving the recorded answer to a question.
    spec fn answered(self, question: RenameQuestion) -> Self;

    fn confirm_table_rename(&mut self, schema: &str, from: &str, to: &str) -> (yes: bool)
        ensures
            old(self).declines_all() ==> !yes,
            final(self).declines_all() == old(self).declines_all(),
            *final(self) == old(self).answered(RenameQuestion::Table { schema: schema@, from: from@, to: to@, yes }),
    ;

    fn confirm_column_rename(&mut self, table: &TableReference, from: &str, to: &str) -> (yes: bool)
        ensures
            old(self).declines_all() ==> !yes,
            final(self).declines_all() == old(self).declines_all(),
            *final(self) == old(self).answered(RenameQuestion::Column { table: table@, from: from@, to: to@, yes }),
    ;
}

/// The resolver after answering `questions` in order.
pub open spec fn replay<R: RenameResolver>(resolver: R, questions: Seq<RenameQuestion>) -> R
    decreases questions.len(),
{
    if questions.len() == 0 {
        resolver
    } else {
        replay(resolver, questions.drop_last()).answered(questions.last())
    }
}

proof fn lemma_replay_push<R: RenameResolver>(resolver: R, questions: Seq<RenameQuestion>, q: RenameQuestion)
    ensures
        replay(resolver, questions.push(q)) == replay(resolver, questions).answered(q),
{
    assert(questions.push(q).drop_last() =~= questions);
}

/// The positions below `n` that `keep` selects, in order.
pub open spec fn kept_positions(n: nat, keep: spec_fn(int) -> bool) -> Seq<int>
    decreases n,
{
    if n == 0 {
        seq![]
    } else {
        kept_positions((n - 1) as nat, keep) + if keep(n - 1) { seq![n - 1] } else { seq![] }
    }
}

/// The source a plan of (source, target) pairs gives target `j`.
pub open spec fn source_of(plan: Seq<(int, int)>, j: int) -> Option<int>
    decreases plan.len(),
{
    if plan.len() == 0 {
        None
    } else if plan.last().1 == j {
        Some(plan.last().0)
    } else {
        source_of(plan.drop_last(), j)
    }
}

proof fn lemma_source_none(plan: Seq<(int, int)>, j: int)
    requires
        forall|k: int| 0 <= k < plan.len() ==> (#[trigger] plan[k]).1 != j,
    ensures
        source_of(plan, j) is None,
    decreases plan.len(),
{
    if plan.len() > 0 {
        assert(plan.last() == plan[plan.len() - 1]);
        assert forall|k: int| 0 <= k < plan.drop_last().len() implies (#[trigger] plan.drop_last()[k]).1 != j by {
            assert(plan.drop_last()[k] == plan[k]);
        }
        lemma_source_none(plan.drop_last(), j);
    }
}

/// `s` without the first occurrence of `x`.
pub open spec fn remove_value(s: Seq<int>, x: int) -> Seq<int>
    decreases s.len(),
{
    if s.len() == 0 {
        s
    } else if s[0] == x {
        s.drop_first()
    } else {
        seq![s[0]] + remove_value(s.drop_first(), x)
    }
}

proof fn lemma_remove_value_at(s: Seq<int>, m: int)
    requires
        0 <= m < s.len(),
        !s.take(m).contains(s[m]),
    ensures
        remove_value(s, s[m]) == s.remove(m),
    decreases m,
{
    if m == 0 {
        assert(s.drop_first() =~= s.remove(0));
    } else {
        assert(s.take(m)[0] == s[0]);
        assert(s[0] != s[m]);
        let t = s.drop_first();
        assert(t[m - 1] == s[m]);
        assert forall|k: int| 0 <= k < m - 1 implies #[trigger] t.take(m - 1)[k] != t[m - 1] by {
            assert(t.take(m - 1)[k] == s.take(m)[k + 1]);
            assert(s.take(m).contains(s.take(m)[k + 1]));
        }
        lemma_remove_value_at(t, m - 1);
        assert(seq![s[0]] + t.remove(m - 1) =~= s.remove(m));
    }
}

/// The questions put about target `j` while offering it the candidates in
/// order: each eligible one is asked about until the one that is its
/// source (answered yes); every other answer is no.
pub open spec fn offer(
    candidates: Seq<int>,
    source: Option<int>,
    j: int,
    eligible: spec_fn(int, int) -> bool,
    question: spec_fn(int, int, bool) -> RenameQuestion,
) -> Seq<RenameQuestion>
    decreases candidates.len(),
{
    if candidates.len() == 0 {
        seq![]
    } else {
        let c = candidates[0];
        if !eligible(c, j) {
            offer(candidates.drop_first(), source, j, eligible, question)
        } else if source == Some(c) {
            seq![question(c, j, true)]
        } else {
            seq![question(c, j, false)] + offer(candidates.drop_first(), source, j, eligible, question)
        }
    }
}

proof fn lemma_offer_concat(
    a: Seq<int>,
    b: Seq<int>,
    source: Option<int>,
    j: int,
    eligible: spec_fn(int, int) -> bool,
    question: spec_fn(int, int, bool) -> RenameQuestion,
)
    requires
        source is None || !a.contains(source->0),
    ensures
        offer(a + b, source, j, eligible, question)
            == offer(a, None, j, eligible, question) + offer(b, source, j, eligible, question),
    decreases a.len(),
{
    if a.len() == 0 {
        assert(a + b =~= b);
    } else {
        assert((a + b)[0] == a[0]);
        assert((a + b).drop_first() =~= a.drop_first() + b);
        if source is Some {
            assert(a.contains(a[0]));
            assert forall|k: int| 0 <= k < a.drop_first().len() implies a.drop_first()[k] != source->0 by {
                assert(a.drop_first()[k] == a[k + 1]);
                assert(a.contains(a[k + 1]));
            }
        }
        lemma_offer_concat(a.drop_first(), b, source, j, eligible, question);
    }
}

/// The questions put to the resolver for targets below `n` (those `target`
/// selects), each offered the candidates not yet taken, and the candidates
/// left after them; `plan` records which candidate each target took.
pub open spec fn questions_upto(
    plan: Seq<(int, int)>,
    n: nat,
    candidates: Seq<int>,
    target: spec_fn(int) -> bool,
    eligible: spec_fn(int, int) -> bool,
    question: spec_fn(int, int, bool) -> RenameQuestion,
) -> (Seq<RenameQuestion>, Seq<int>)
    decreases n,
{
    if n == 0 {
        (seq![], candidates)
    } else {
        let (asked, left) = questions_upto(plan, (n - 1) as nat, candidates, target, eligible, question);
        let j = n - 1;
        if !target(j) {
            (asked, left)
        } else {
            let source = source_of(plan, j);
            (asked + offer(left, source, j, eligible, question), match source {
                Some(c) => remove_value(left, c),
                None => left,
            })
        }
    }
}

proof fn lemma_questions_upto_frame(
    plan: Seq<(int, int)>,
    e: (int, int),
    n: nat,
    candidates: Seq<int>,
    target: spec_fn(int) -> bool,
    eligible: spec_fn(int, int) -> bool,
    question: spec_fn(int, int, bool) -> RenameQuestion,
)
    requires
        e.1 >= n,
    ensures
        questions_upto(plan.push(e), n, candidates, target, eligible, question)
            == questions_upto(plan, n, candidates, target, eligible, question),
    decreases n,
{
    if n > 0 {
        lemma_questions_upto_frame(plan, e, (n - 1) as nat, candidates, target, eligible, question);
        assert(plan.push(e).drop_last() =~= plan);
        assert(source_of(plan.push(e), n - 1) == source_of(plan, n - 1));
    }
}

/// Treats every removed/added pair as a drop and an add.
pub struct NoRenames;

impl RenameResolver for NoRenames {
    open spec fn declines_all(&self) -> bool {
        true
    }

    open spec fn answered(self, question: RenameQuestion) -> NoRenames {
        self
    }

    fn confirm_table_rename(&mut self, schema: &str, from: &str, to: &str) -> (yes: bool) {
        false
    }

    fn confirm_column_rename(&mut self, table: &TableReference, from: &str, to: &str) -> (yes: bool) {
        false
    }
}

/// Desired table `j` is absent from the baseline.
pub open spec fn is_created(b: DatabaseSchemaModel, d: DatabaseSchemaModel, j: int) -> bool {
    0 <= j < d.tables.len() && lookup(b.tables, table_key(d.tables[j].1)) is None
}

/// Baseline table `i` is absent from the desired schema.
pub open spec fn is_dropped(b: DatabaseSchemaModel, d: DatabaseSchemaModel, i: int) -> bool {
    0 <= i < b.tables.len() && lookup(d.tables, table_key(b.tables[i].1)) is None
}

/// Desired table `j` also exists in the baseline.
pub open spec fn is_surviving(b: DatabaseSchemaModel, d: DatabaseSchemaModel, j: int) -> bool {
    0 <= j < d.tables.len() && lookup(b.tables, table_key(d.tables[j].1)) is Some
}

/// The baseline table desired table `j` is compared against.
pub open spec fn old_table(b: DatabaseSchemaModel, d: DatabaseSchemaModel, p: RenamePlanModel, j: int) -> TableModel {
    match rename_source(p, j) {
        Some(i) => b.tables[i].1,
        None => lookup(b.tables, table_key(d.tables[j].1))->0,
    }
}

/// Desired table `j` has its columns diffed: it survives or is renamed.
pub open spec fn is_diffed(b: DatabaseSchemaModel, d: DatabaseSchemaModel, p: RenamePlanModel, j: int) -> bool {
    is_surviving(b, d, j) || (is_created(b, d, j) && rename_source(p, j) is Some)
}

pub open spec fn valid_table_renames(b: DatabaseSchemaModel, d: DatabaseSchemaModel, p: RenamePlanModel) -> bool {
    &&& forall|k: int| 0 <= k < p.tables.len() ==> {
        &&& is_dropped(b, d, #[trigger] p.tables[k].0)
        &&& is_created(b, d, p.tables[k].1)
        &&& b.tables[p.tables[k].0].1.schema == d.tables[p.tables[k].1].1.schema
    }
    &&& forall|k1: int, k2: int| #![trigger p.tables[k1], p.tables[k2]] 0 <= k1 < k2 < p.tables.len() ==>
        p.tables[k1].0 != p.tables[k2].0 && p.tables[k1].1 < p.tables[k2].1
}

/// Column rename `(dj, o, j)` moves removed column `o` of the old table onto
/// added column `j` of desired table `dj`, keeping its type.
pub open spec fn valid_column_rename(b: DatabaseSchemaModel, d: DatabaseSchemaModel, p: RenamePlanModel, c: (int, int, int)) -> bool {
    let old = old_table(b, d, p, c.0);
    let new = d.tables[c.0].1;
    &&& is_diffed(b, d, p, c.0)
    &&& 0 <= c.1 < old.columns.len()
    &&& 0 <= c.2 < new.columns.len()
    &&& column_named(new.columns, old.columns[c.1].name) is None
    &&& column_named(old.columns, new.columns[c.2].name) is None
    &&& old.columns[c.1].sql_type == new.columns[c.2].sql_type
}

/// The renames a resolver can settle on: tables pair a dropped table with a
/// created one in the same schema, columns pair a removed column with an
/// added one of the same type, each side used at most once.
pub open spec fn valid_plan(b: DatabaseSchemaModel, d: DatabaseSchemaModel, p: RenamePlanModel) -> bool {
    &&& valid_table_renames(b, d, p)
    &&& forall|k: int| 0 <= k < p.columns.len() ==> valid_column_rename(b, d, p, #[trigger] p.columns[k])
    &&& forall|k1: int, k2: int| 0 <= k1 < k2 < p.columns.len() && (#[trigger] p.columns[k1]).0 == (#[trigger] p.columns[k2]).0 ==>
        p.columns[k1].1 != p.columns[k2].1 && p.columns[k1].2 != p.columns[k2].2
}


/// A column rename between two given tables is well-formed.
pub open spec fn column_pair_ok(old: TableModel, new: TableModel, o: int, j: int) -> bool {
    &&& 0 <= o < old.columns.len()
    &&& 0 <= j < new.columns.len()
    &&& column_named(new.columns, old.columns[o].name) is None
    &&& column_named(old.columns, new.columns[j].name) is None
    &&& old.columns[o].sql_type == new.columns[j].sql_type
}

/// The (removed column, added column) pairs of column plan entries.
pub open spec fn column_pairs(entries: Seq<(usize, usize, usize)>) -> Seq<(int, int)> {
    entries.map_values(|e: (usize, usize, usize)| (e.1 as int, e.2 as int))
}

pub open spec fn keep_removed(old: TableModel, new: TableModel) -> spec_fn(int) -> bool {
    |o: int| column_named(new.columns, old.columns[o].name) is None
}

pub open spec fn keep_added(old: TableModel, new: TableModel) -> spec_fn(int) -> bool {
    |j: int| column_named(old.columns, new.columns[j].name) is None
}

/// A removed column is offered to an added one of the same type.
pub open spec fn same_type(old: TableModel, new: TableModel) -> spec_fn(int, int) -> bool {
    |o: int, j: int| old.columns[o].sql_type == new.columns[j].sql_type
}

/// "Rename column `old` of the table to `new`?", answered.
pub open spec fn column_question(old: TableModel, new: TableModel) -> spec_fn(int, int, bool) -> RenameQuestion {
    |o: int, j: int, yes: bool| RenameQuestion::Column {
        table: TableReferenceModel { schema: new.schema, name: new.name },
        from: old.columns[o].name,
        to: new.columns[j].name,
        yes,
    }
}

/// The column rename questions a plan implies: each added column, in order,
/// is offered the removed columns not yet taken, in order, those of its
/// type asked about until the one it takes.
pub open spec fn column_questions(old: TableModel, new: TableModel, plan: Seq<(int, int)>) -> Seq<RenameQuestion> {
    questions_upto(
        plan,
        new.columns.len(),
        kept_positions(old.columns.len(), keep_removed(old, new)),
        keep_added(old, new),
        same_type(old, new),
        column_question(old, new),
    ).0
}

/// Asks the resolver about the removed/added column pairs of one table and
/// appends the accepted renames (keyed by desired table `dj`).
#[verifier::loop_isolation(false)]
#[verifier::rlimit(60)]
fn plan_columns<R: RenameResolver>(
    old_t: &Table,
    new_t: &Table,
    dj: usize,
    resolver: &mut R,
    entries: &mut Vec<(usize, usize, usize)>,
)
    ensures
        final(resolver).declines_all() == old(resolver).declines_all(),
        final(entries)@.len() >= old(entries)@.len(),
        final(entries)@.take(old(entries)@.len() as int) == old(entries)@,
        old(resolver).declines_all() ==> final(entries)@ == old(entries)@,
        forall|k: int| old(entries)@.len() <= k < final(entries)@.len() ==> {
            &&& (#[trigger] final(entries)@[k]).0 == dj
            &&& column_pair_ok(old_t@, new_t@, final(entries)@[k].1 as int, final(entries)@[k].2 as int)
        },
        forall|k1: int, k2: int| old(entries)@.len() <= k1 < k2 < final(entries)@.len() ==>
            (#[trigger] final(entries)@[k1]).1 != (#[trigger] final(entries)@[k2]).1
                && final(entries)@[k1].2 != final(entries)@[k2].2,
        *final(resolver) == replay(
            *old(resolver),
            column_questions(old_t@, new_t@, column_pairs(final(entries)@.skip(old(entries)@.len() as int))),
        ),
{
    let ghost start = entries@;
    let ghost declines = resolver.declines_all();
    let ghost r0 = *resolver;
    let ghost keep = keep_removed(old_t@, new_t@);
    let ghost target = keep_added(old_t@, new_t@);
    let ghost eligible = same_type(old_t@, new_t@);
    let ghost question = column_question(old_t@, new_t@);
    let table = new_t.reference();
    let mut removed: Vec<usize> = Vec::new();
    let mut o: usize = 0;
    while o < old_t.columns.len()
        invariant
            o <= old_t.columns.len(),
            keep == keep_removed(old_t@, new_t@),
            forall|m: int| 0 <= m < removed@.len() ==> {
                &&& (#[trigger] removed@[m]) < o
                &&& column_named(new_t@.columns, old_t@.columns[removed@[m] as int].name) is None
            },
            forall|m1: int, m2: int| 0 <= m1 < m2 < removed@.len() ==> #[trigger] removed@[m1] < #[trigger] removed@[m2],
            ints(removed@) == kept_positions(o as nat, keep),
        decreases old_t.columns.len() - o,
    {
        let ghost before = removed@;
        if new_t.column(old_t.columns[o].name.as_str()).is_none() {
            removed.push(o);
            assert(ints(removed@) =~= ints(before).push(o as int));
        }
        assert(ints(removed@) =~= kept_positions((o + 1) as nat, keep));
        o = o + 1;
    }
    let ghost cands0 = ints(removed@);
    let mut j: usize = 0;
    while j < new_t.columns.len()
        invariant
            j <= new_t.columns.len(),
            resolver.declines_all() == declines,
            entries@.len() >= start.len(),
            entries@.take(start.len() as int) == start,
            declines ==> entries@ == start,
            keep == keep_removed(old_t@, new_t@),
            target == keep_added(old_t@, new_t@),
            eligible == same_type(old_t@, new_t@),
            question == column_question(old_t@, new_t@),
            table@ == (TableReferenceModel { schema: new_t@.schema, name: new_t@.name }),
            cands0 == kept_positions(old_t@.columns.len(), keep),
            forall|m: int| 0 <= m < removed@.len() ==> {
                &&& (#[trigger] removed@[m]) < old_t.columns.len()
                &&& column_named(new_t@.columns, old_t@.columns[removed@[m] as int].name) is None
            },
            forall|m1: int, m2: int| 0 <= m1 < m2 < removed@.len() ==> #[trigger] removed@[m1] != #[trigger] removed@[m2],
            forall|k: int| start.len() <= k < entries@.len() ==> {
                &&& (#[trigger] entries@[k]).0 == dj
                &&& entries@[k].2 < j
                &&& column_pair_ok(old_t@, new_t@, entries@[k].1 as int, entries@[k].2 as int)
                &&& !removed@.contains(entries@[k].1)
            },
            forall|k1: int, k2: int| start.len() <= k1 < k2 < entries@.len() ==>
                (#[trigger] entries@[k1]).1 != (#[trigger] entries@[k2]).1 && entries@[k1].2 != entries@[k2].2,
            ints(removed@) == questions_upto(column_pairs(entries@.skip(start.len() as int)), j as nat, cands0, target, eligible, question).1,
            *resolver == replay(r0, questions_upto(column_pairs(entries@.skip(start.len() as int)), j as nat, cands0, target, eligible, question).0),
        decreases new_t.columns.len() - j,
    {
        let c = &new_t.columns[j];
        let ghost plan_j = column_pairs(entries@.skip(start.len() as int));
        let ghost entries_j = entries@;
        let ghost asked_j = questions_upto(plan_j, j as nat, cands0, target, eligible, question).0;
        let ghost cands_j = ints(removed@);
        if old_t.column(c.name.as_str()).is_none() {
            let mut m: usize = 0;
            let mut found = false;
            let ghost mut chosen: int = 0;
            while m < removed.len() && !found
                invariant
                    m <= removed.len(),
                    resolver.declines_all() == declines,
                    entries@.len() >= start.len(),
                    entries@.take(start.len() as int) == start,
                    declines ==> entries@ == start,
                    target(j as int),
                    eligible == same_type(old_t@, new_t@),
                    question == column_question(old_t@, new_t@),
                    table@ == (TableReferenceModel { schema: new_t@.schema, name: new_t@.name }),
                    forall|q: int| 0 <= q < removed@.len() ==> {
                        &&& (#[trigger] removed@[q]) < old_t.columns.len()
                        &&& column_named(new_t@.columns, old_t@.columns[removed@[q] as int].name) is None
                    },
                    forall|m1: int, m2: int| 0 <= m1 < m2 < removed@.len() ==> #[trigger] removed@[m1] != #[trigger] removed@[m2],
                    forall|k: int| start.len() <= k < entries@.len() ==> {
                        &&& (#[trigger] entries@[k]).0 == dj
                        &&& entries@[k].2 < j + 1
                        &&& (!found ==> entries@[k].2 < j)
                        &&& column_pair_ok(old_t@, new_t@, entries@[k].1 as int, entries@[k].2 as int)
                        &&& !removed@.contains(entries@[k].1)
                    },
                    forall|k1: int, k2: int| start.len() <= k1 < k2 < entries@.len() ==>
                        (#[trigger] entries@[k1]).1 != (#[trigger] entries@[k2]).1 && entries@[k1].2 != entries@[k2].2,
                    forall|m1: int, m2: int| 0 <= m1 < m2 < cands_j.len() ==> #[trigger] cands_j[m1] != #[trigger] cands_j[m2],
                    !found ==> entries@ == entries_j && ints(removed@) == cands_j
                        && *resolver == replay(r0, asked_j + offer(cands_j.take(m as int), None, j as int, eligible, question)),
                    found ==> column_pairs(entries@.skip(start.len() as int)) == plan_j.push((chosen, j as int))
                        && ints(removed@) == remove_value(cands_j, chosen)
                        && *resolver == replay(r0, asked_j + offer(cands_j, Some(chosen), j as int, eligible, question)),
                decreases removed.len() - m + (if found { 0int } else { 1int }),
            {
                let candidate = removed[m];
                let old_c = &old_t.columns[candidate];
                let ghost cc = candidate as int;
                assert(cands_j[m as int] == cc);
                assert(!cands_j.take(m as int).contains(cc)) by {
                    if cands_j.take(m as int).contains(cc) {
                        let q = choose|q: int| 0 <= q < m && cands_j.take(m as int)[q] == cc;
                        assert(cands_j[q] == cands_j[m as int]);
                    }
                }
                proof {
                    assert(seq![cc].drop_first() =~= Seq::<int>::empty());
                    assert(offer(Seq::<int>::empty(), None, j as int, eligible, question) =~= Seq::<RenameQuestion>::empty());
                    lemma_offer_concat(cands_j.take(m as int), seq![cc], None, j as int, eligible, question);
                    assert(cands_j.take(m as int) + seq![cc] =~= cands_j.take(m + 1));
                    lemma_offer_concat(cands_j.take(m as int), cands_j.skip(m as int), Some(cc), j as int, eligible, question);
                    assert(cands_j.take(m as int) + cands_j.skip(m as int) =~= cands_j);
                    assert(cands_j.skip(m as int)[0] == cc);
                }
                let same = str_eq(old_c.sql_type.as_str(), c.sql_type.as_str());
                assert(same == eligible(cc, j as int));
                if same && resolver.confirm_column_rename(&table, old_c.name.as_str(), c.name.as_str()) {
                    let ghost before = entries@;
                    let ghost rem_before = removed@;
                    entries.push((dj, candidate, j));
                    removed.remove(m);
                    found = true;
                    proof {
                        chosen = cc;
                        lemma_replay_push(r0, asked_j + offer(cands_j.take(m as int), None, j as int, eligible, question), question(cc, j as int, true));
                        assert(offer(cands_j.skip(m as int), Some(cc), j as int, eligible, question) == seq![question(cc, j as int, true)]);
                        assert((asked_j + offer(cands_j.take(m as int), None, j as int, eligible, question)).push(question(cc, j as int, true))
                            =~= asked_j + offer(cands_j, Some(cc), j as int, eligible, question));
                        assert(entries@.skip(start.len() as int) =~= before.skip(start.len() as int).push((dj, candidate, j)));
                        assert(column_pairs(entries@.skip(start.len() as int)) =~= plan_j.push((cc, j as int)));
                        assert(ints(removed@) =~= cands_j.remove(m as int));
                        lemma_remove_value_at(cands_j, m as int);
                        assert(entries@.take(start.len() as int) =~= before.take(start.len() as int));
                        assert forall|k: int| start.len() <= k < entries@.len() implies !removed@.contains(#[trigger] entries@[k].1) by {
                            if k < before.len() {
                                assert(!rem_before.contains(before[k].1));
                                if removed@.contains(entries@[k].1) {
                                    let q = choose|q: int| 0 <= q < removed@.len() && removed@[q] == entries@[k].1;
                                    if q < m { assert(rem_before[q] == removed@[q]); } else { assert(rem_before[q + 1] == removed@[q]); }
                                }
                            } else {
                                if removed@.contains(candidate) {
                                    let q = choose|q: int| 0 <= q < removed@.len() && removed@[q] == candidate;
                                    if q < m { assert(rem_before[q] == removed@[q]); } else { assert(rem_before[q + 1] == removed@[q]); }
                                }
                            }
                        }
                        assert forall|k1: int, k2: int| start.len() <= k1 < k2 < entries@.len() implies
                            (#[trigger] entries@[k1]).1 != (#[trigger] entries@[k2]).1 && entries@[k1].2 != entries@[k2].2 by {
                            if k2 == before.len() {
                                assert(!rem_before.contains(before[k1].1));
                                assert(rem_before[m as int] == candidate);
                            }
                        }
                    }
                } else {
                    proof {
                        if same {
                            lemma_replay_push(r0, asked_j + offer(cands_j.take(m as int), None, j as int, eligible, question), question(cc, j as int, false));
                            assert((asked_j + offer(cands_j.take(m as int), None, j as int, eligible, question)).push(question(cc, j as int, false))
                                =~= asked_j + offer(cands_j.take(m + 1), None, j as int, eligible, question));
                        } else {
                            assert(asked_j + offer(cands_j.take(m as int), None, j as int, eligible, question)
                                =~= asked_j + offer(cands_j.take(m + 1), None, j as int, eligible, question));
                        }
                    }
                    m = m + 1;
                }
            }
            proof {
                if found {
                    lemma_questions_upto_frame(plan_j, (chosen, j as int), j as nat, cands0, target, eligible, question);
                    assert(plan_j.push((chosen, j as int)).drop_last() =~= plan_j);
                } else {
                    assert(cands_j.take(m as int) =~= cands_j);
                    assert forall|k: int| 0 <= k < plan_j.len() implies (#[trigger] plan_j[k]).1 != j as int by {
                        assert(plan_j[k].1 == entries@[k + start.len()].2 as int);
                    }
                    lemma_source_none(plan_j, j as int);
                }
            }
        } else {
            assert(!target(j as int));
        }
        j = j + 1;
    }
}


/// The table renames as plan entries in int form.
pub open spec fn table_entries(v: Seq<(usize, usize)>) -> Seq<(int, int)> {
    v.map_values(|t: (usize, usize)| (t.0 as int, t.1 as int))
}

/// Positions as integers.
pub open spec fn ints(v: Seq<usize>) -> Seq<int> {
    v.map_values(|x: usize| x as int)
}

pub open spec fn keep_dropped(b: DatabaseSchemaModel, d: DatabaseSchemaModel) -> spec_fn(int) -> bool {
    |i: int| is_dropped(b, d, i)
}

pub open spec fn keep_created(b: DatabaseSchemaModel, d: DatabaseSchemaModel) -> spec_fn(int) -> bool {
    |j: int| is_created(b, d, j)
}

/// A dropped table is offered to a created one of the same schema.
pub open spec fn same_schema(b: DatabaseSchemaModel, d: DatabaseSchemaModel) -> spec_fn(int, int) -> bool {
    |c: int, j: int| b.tables[c].1.schema == d.tables[j].1.schema
}

/// "Rename table `schema.old` to `schema.new`?", answered.
pub open spec fn table_question(b: DatabaseSchemaModel, d: DatabaseSchemaModel) -> spec_fn(int, int, bool) -> RenameQuestion {
    |c: int, j: int, yes: bool| RenameQuestion::Table {
        schema: d.tables[j].1.schema,
        from: b.tables[c].1.name,
        to: d.tables[j].1.name,
        yes,
    }
}

/// The table rename questions a plan implies: each created table, in
/// desired order, is offered the dropped tables not yet taken, in baseline
/// order, those of its schema asked about until the one it takes.
pub open spec fn table_questions(b: DatabaseSchemaModel, d: DatabaseSchemaModel, plan: Seq<(int, int)>) -> Seq<RenameQuestion> {
    questions_upto(
        plan,
        d.tables.len(),
        kept_positions(b.tables.len(), keep_dropped(b, d)),
        keep_created(b, d),
        same_schema(b, d),
        table_question(b, d),
    ).0
}

/// Offers each created table, in desired order, to the dropped tables of its
/// schema in baseline order; the first one the resolver accepts is its source.
#[verifier::loop_isolation(false)]
#[verifier::rlimit(60)]
fn plan_tables<R: RenameResolver>(b: &DatabaseSchema, d: &DatabaseSchema, resolver: &mut R) -> (tables: Vec<(usize, usize)>)
    ensures
        final(resolver).declines_all() == old(resolver).declines_all(),
        old(resolver).declines_all() ==> tables@.len() == 0,
        valid_table_renames(b@, d@, RenamePlanModel { tables: table_entries(tables@), columns: seq![] }),
        *final(resolver) == replay(*old(resolver), table_questions(b@, d@, table_entries(tables@))),
{
    let ghost declines = resolver.declines_all();
    let ghost r0 = *resolver;
    let ghost keep = keep_dropped(b@, d@);
    let ghost target = keep_created(b@, d@);
    let ghost eligible = same_schema(b@, d@);
    let ghost question = table_question(b@, d@);
    let mut dropped: Vec<usize> = Vec::new();
    let mut i: usize = 0;
    while i < b.tables.len()
        invariant
            i <= b@.tables.len(),
            keep == keep_dropped(b@, d@),
            forall|m: int| 0 <= m < dropped@.len() ==> (#[trigger] dropped@[m]) < i && is_dropped(b@, d@, dropped@[m] as int),
            forall|m1: int, m2: int| 0 <= m1 < m2 < dropped@.len() ==> #[trigger] dropped@[m1] < #[trigger] dropped@[m2],
            ints(dropped@) == kept_positions(i as nat, keep),
        decreases b@.tables.len() - i,
    {
        let t = b.tables.value_at(i);
        let key = t.qualified_name();
        let ghost before = dropped@;
        if !d.tables.contains_key(key.as_str()) {
            dropped.push(i);
            assert(ints(dropped@) =~= ints(before).push(i as int));
        } else {
            assert(!is_dropped(b@, d@, i as int));
        }
        assert(ints(dropped@) =~= kept_positions((i + 1) as nat, keep));
        i = i + 1;
    }
    let ghost cands0 = ints(dropped@);
    let mut tables: Vec<(usize, usize)> = Vec::new();
    let mut j: usize = 0;
    while j < d.tables.len()
        invariant
            j <= d@.tables.len(),
            resolver.declines_all() == declines,
            declines ==> tables@.len() == 0,
            keep == keep_dropped(b@, d@),
            target == keep_created(b@, d@),
            eligible == same_schema(b@, d@),
            question == table_question(b@, d@),
            cands0 == kept_positions(b@.tables.len(), keep),
            forall|m: int| 0 <= m < dropped@.len() ==> is_dropped(b@, d@, #[trigger] dropped@[m] as int),
            forall|m1: int, m2: int| 0 <= m1 < m2 < dropped@.len() ==> #[trigger] dropped@[m1] != #[trigger] dropped@[m2],
            forall|k: int| 0 <= k < tables@.len() ==> {
                &&& is_dropped(b@, d@, (#[trigger] tables@[k]).0 as int)
                &&& is_created(b@, d@, tables@[k].1 as int)
                &&& tables@[k].1 < j
                &&& b@.tables[tables@[k].0 as int].1.schema == d@.tables[tables@[k].1 as int].1.schema
                &&& !dropped@.contains(tables@[k].0)
            },
            forall|k1: int, k2: int| 0 <= k1 < k2 < tables@.len() ==>
                (#[trigger] tables@[k1]).0 != (#[trigger] tables@[k2]).0 && tables@[k1].1 < tables@[k2].1,
            ints(dropped@) == questions_upto(table_entries(tables@), j as nat, cands0, target, eligible, question).1,
            *resolver == replay(r0, questions_upto(table_entries(tables@), j as nat, cands0, target, eligible, question).0),
        decreases d@.tables.len() - j,
    {
        let t = d.tables.value_at(j);
        let key = t.qualified_name();
        let ghost plan_j = table_entries(tables@);
        let ghost asked_j = questions_upto(plan_j, j as nat, cands0, target, eligible, question).0;
        let ghost cands_j = ints(dropped@);
        if !b.tables.contains_key(key.as_str()) {
            let mut m: usize = 0;
            let mut found = false;
            let ghost mut chosen: int = 0;
            while m < dropped.len() && !found
                invariant
                    m <= dropped.len(),
                    resolver.declines_all() == declines,
                    declines ==> tables@.len() == 0,
                    is_created(b@, d@, j as int),
                    eligible == same_schema(b@, d@),
                    question == table_question(b@, d@),
                    forall|q: int| 0 <= q < dropped@.len() ==> is_dropped(b@, d@, #[trigger] dropped@[q] as int),
                    forall|m1: int, m2: int| 0 <= m1 < m2 < dropped@.len() ==> #[trigger] dropped@[m1] != #[trigger] dropped@[m2],
                    forall|k: int| 0 <= k < tables@.len() ==> {
                        &&& is_dropped(b@, d@, (#[trigger] tables@[k]).0 as int)
                        &&& is_created(b@, d@, tables@[k].1 as int)
                        &&& tables@[k].1 < j + 1
                        &&& (!found ==> tables@[k].1 < j)
                        &&& b@.tables[tables@[k].0 as int].1.schema == d@.tables[tables@[k].1 as int].1.schema
                        &&& !dropped@.contains(tables@[k].0)
                    },
                    forall|k1: int, k2: int| 0 <= k1 < k2 < tables@.len() ==>
                        (#[trigger] tables@[k1]).0 != (#[trigger] tables@[k2]).0 && tables@[k1].1 < tables@[k2].1,
                    forall|m1: int, m2: int| 0 <= m1 < m2 < cands_j.len() ==> #[trigger] cands_j[m1] != #[trigger] cands_j[m2],
                    !found ==> table_entries(tables@) == plan_j && ints(dropped@) == cands_j
                        && *resolver == replay(r0, asked_j + offer(cands_j.take(m as int), None, j as int, eligible, question)),
                    found ==> table_entries(tables@) == plan_j.push((chosen, j as int))
                        && ints(dropped@) == remove_value(cands_j, chosen)
                        && *resolver == replay(r0, asked_j + offer(cands_j, Some(chosen), j as int, eligible, question)),
                decreases dropped.len() - m + (if found { 0int } else { 1int }),
            {
                let candidate = dropped[m];
                let old_t = b.tables.value_at(candidate);
                let ghost c = candidate as int;
                assert(cands_j[m as int] == c);
                assert(!cands_j.take(m as int).contains(c)) by {
                    if cands_j.take(m as int).contains(c) {
                        let q = choose|q: int| 0 <= q < m && cands_j.take(m as int)[q] == c;
                        assert(cands_j[q] == cands_j[m as int]);
                    }
                }
                proof {
                    assert(seq![c].drop_first() =~= Seq::<int>::empty());
                    assert(offer(Seq::<int>::empty(), None, j as int, eligible, question) =~= Seq::<RenameQuestion>::empty());
                    lemma_offer_concat(cands_j.take(m as int), seq![c], None, j as int, eligible, question);
                    assert(cands_j.take(m as int) + seq![c] =~= cands_j.take(m + 1));
                    lemma_offer_concat(cands_j.take(m as int), cands_j.skip(m as int), Some(c), j as int, eligible, question);
                    assert(cands_j.take(m as int) + cands_j.skip(m as int) =~= cands_j);
                    assert(cands_j.skip(m as int)[0] == c);
                }
                let same = str_eq(old_t.schema.as_str(), t.schema.as_str());
                assert(same == eligible(c, j as int));
                if same && resolver.confirm_table_rename(t.schema.as_str(), old_t.name.as_str(), t.name.as_str()) {
                    let ghost before = tables@;
                    let ghost drop_before = dropped@;
                    tables.push((candidate, j));
                    dropped.remove(m);
                    found = true;
                    proof {
                        chosen = c;
                        lemma_replay_push(r0, asked_j + offer(cands_j.take(m as int), None, j as int, eligible, question), question(c, j as int, true));
                        assert(offer(cands_j.skip(m as int), Some(c), j as int, eligible, question) == seq![question(c, j as int, true)]);
                        assert((asked_j + offer(cands_j.take(m as int), None, j as int, eligible, question)).push(question(c, j as int, true))
                            =~= asked_j + offer(cands_j, Some(c), j as int, eligible, question));
                        assert(table_entries(tables@) =~= plan_j.push((c, j as int)));
                        assert(ints(dropped@) =~= cands_j.remove(m as int));
                        lemma_remove_value_at(cands_j, m as int);
                        assert forall|k: int| 0 <= k < tables@.len() implies !dropped@.contains(#[trigger] tables@[k].0) by {
                            let x = tables@[k].0;
                            if dropped@.contains(x) {
                                let q = choose|q: int| 0 <= q < dropped@.len() && dropped@[q] == x;
                                if q < m { assert(drop_before[q] == dropped@[q]); } else { assert(drop_before[q + 1] == dropped@[q]); }
                                if k < before.len() {
                                    assert(drop_before.contains(before[k].0));
                                } else {
                                    assert(drop_before[m as int] == candidate);
                                }
                            }
                        }
                        assert forall|k1: int, k2: int| 0 <= k1 < k2 < tables@.len() implies
                            (#[trigger] tables@[k1]).0 != (#[trigger] tables@[k2]).0 && tables@[k1].1 < tables@[k2].1 by {
                            if k2 == before.len() {
                                assert(!drop_before.contains(before[k1].0));
                                assert(drop_before[m as int] == candidate);
                            }
                        }
                    }
                } else {
                    proof {
                        if same {
                            lemma_replay_push(r0, asked_j + offer(cands_j.take(m as int), None, j as int, eligible, question), question(c, j as int, false));
                            assert(offer(seq![c], None, j as int, eligible, question) =~= seq![question(c, j as int, false)]);
                            assert((asked_j + offer(cands_j.take(m as int), None, j as int, eligible, question)).push(question(c, j as int, false))
                                =~= asked_j + offer(cands_j.take(m + 1), None, j as int, eligible, question));
                        } else {
                            assert(offer(seq![c], None, j as int, eligible, question) =~= Seq::<RenameQuestion>::empty());
                            assert(asked_j + offer(cands_j.take(m as int), None, j as int, eligible, question)
                                =~= asked_j + offer(cands_j.take(m + 1), None, j as int, eligible, question));
                        }
                    }
                    m = m + 1;
                }
            }
            proof {
                assert(target(j as int));
                if found {
                    lemma_questions_upto_frame(plan_j, (chosen, j as int), j as nat, cands0, target, eligible, question);
                    assert(plan_j.push((chosen, j as int)).drop_last() =~= plan_j);
                } else {
                    assert(cands_j.take(m as int) =~= cands_j);
                    assert forall|k: int| 0 <= k < plan_j.len() implies (#[trigger] plan_j[k]).1 != j as int by {
                        assert(plan_j[k].1 == tables@[k].1 as int);
                    }
                    lemma_source_none(plan_j, j as int);
                }
            }
        } else {
            assert(!target(j as int));
        }
        j = j + 1;
    }
    proof {
        let p = RenamePlanModel { tables: table_entries(tables@), columns: seq![] };
        assert forall|k: int| 0 <= k < p.tables.len() implies {
            &&& is_dropped(b@, d@, #[trigger] p.tables[k].0)
            &&& is_created(b@, d@, p.tables[k].1)
            &&& b@.tables[p.tables[k].0].1.schema == d@.tables[p.tables[k].1].1.schema
        } by {
            assert(p.tables[k] == (tables@[k].0 as int, tables@[k].1 as int));
        }
        assert forall|k1: int, k2: int| 0 <= k1 < k2 < p.tables.len() implies
            #[trigger] p.tables[k1].0 != #[trigger] p.tables[k2].0 && p.tables[k1].1 < p.tables[k2].1 by {
            assert(p.tables[k1] == (tables@[k1].0 as int, tables@[k1].1 as int));
            assert(p.tables[k2] == (tables@[k2].0 as int, tables@[k2].1 as int));
        }
    }
    tables
}


pub open spec fn column_entry(c: (usize, usize, usize)) -> (int, int, int) {
    (c.0 as int, c.1 as int, c.2 as int)
}

/// Column plan entries in int form.
pub open spec fn column_entries(v: Seq<(usize, usize, usize)>) -> Seq<(int, int, int)> {
    v.map_values(|c: (usize, usize, usize)| column_entry(c))
}

/// The (removed column, added column) pairs that column plan entries rename
/// in desired table `dj`, in plan order.
pub open spec fn columns_of(cols: Seq<(int, int, int)>, dj: int) -> Seq<(int, int)>
    decreases cols.len(),
{
    if cols.len() == 0 {
        seq![]
    } else {
        columns_of(cols.drop_last(), dj) + if cols.last().0 == dj { seq![(cols.last().1, cols.last().2)] } else { seq![] }
    }
}

/// The column questions about the tables of the first `k` table renames,
/// in plan order: each renamed table against the table it becomes.
pub open spec fn renamed_table_questions(
    b: DatabaseSchemaModel,
    d: DatabaseSchemaModel,
    tables: Seq<(int, int)>,
    cols: Seq<(int, int, int)>,
    k: nat,
) -> Seq<RenameQuestion>
    decreases k,
{
    if k == 0 {
        seq![]
    } else {
        let t = tables[k - 1];
        renamed_table_questions(b, d, tables, cols, (k - 1) as nat)
            + column_questions(b.tables[t.0].1, d.tables[t.1].1, columns_of(cols, t.1))
    }
}

/// The column questions about the desired tables below `n` that the
/// baseline also holds, in desired order.
pub open spec fn surviving_table_questions(
    b: DatabaseSchemaModel,
    d: DatabaseSchemaModel,
    cols: Seq<(int, int, int)>,
    n: nat,
) -> Seq<RenameQuestion>
    decreases n,
{
    if n == 0 {
        seq![]
    } else {
        let j = n - 1;
        surviving_table_questions(b, d, cols, (n - 1) as nat) + if is_surviving(b, d, j) {
            column_questions(lookup(b.tables, table_key(d.tables[j].1))->0, d.tables[j].1, columns_of(cols, j))
        } else {
            seq![]
        }
    }
}

/// Every question a diff of `b` into `d` puts to its resolver when the
/// answers settle on plan `p`, in the order asked, each with its answer:
/// the table questions, then the column questions of each renamed table,
/// then those of each table on both sides.
pub open spec fn rename_questions(b: DatabaseSchemaModel, d: DatabaseSchemaModel, p: RenamePlanModel) -> Seq<RenameQuestion> {
    table_questions(b, d, p.tables)
        + renamed_table_questions(b, d, p.tables, p.columns, p.tables.len())
        + surviving_table_questions(b, d, p.columns, d.tables.len())
}

proof fn lemma_replay_concat<R: RenameResolver>(resolver: R, a: Seq<RenameQuestion>, c: Seq<RenameQuestion>)
    ensures
        replay(replay(resolver, a), c) == replay(resolver, a + c),
    decreases c.len(),
{
    if c.len() == 0 {
        assert(a + c =~= a);
    } else {
        lemma_replay_concat(resolver, a, c.drop_last());
        assert((a + c).drop_last() =~= a + c.drop_last());
        assert((a + c).last() == c.last());
    }
}

proof fn lemma_columns_of_append(a: Seq<(int, int, int)>, c: Seq<(int, int, int)>, dj: int)
    ensures
        columns_of(a + c, dj) == columns_of(a, dj) + columns_of(c, dj),
    decreases c.len(),
{
    if c.len() == 0 {
        assert(a + c =~= a);
        assert(columns_of(a, dj) + columns_of(c, dj) =~= columns_of(a, dj));
    } else {
        lemma_columns_of_append(a, c.drop_last(), dj);
        assert((a + c).drop_last() =~= a + c.drop_last());
        assert((a + c).last() == c.last());
        let tail: Seq<(int, int)> = if c.last().0 == dj { seq![(c.last().1, c.last().2)] } else { seq![] };
        assert(columns_of(a + c, dj) =~= columns_of(a, dj) + columns_of(c.drop_last(), dj) + tail);
    }
}

proof fn lemma_columns_of_none(c: Seq<(int, int, int)>, dj: int)
    requires
        forall|q: int| 0 <= q < c.len() ==> (#[trigger] c[q]).0 != dj,
    ensures
        columns_of(c, dj) == Seq::<(int, int)>::empty(),
    decreases c.len(),
{
    if c.len() > 0 {
        assert(c.last() == c[c.len() - 1]);
        assert forall|q: int| 0 <= q < c.drop_last().len() implies (#[trigger] c.drop_last()[q]).0 != dj by {
            assert(c.drop_last()[q] == c[q]);
        }
        lemma_columns_of_none(c.drop_last(), dj);
        assert(columns_of(c, dj) =~= Seq::<(int, int)>::empty());
    }
}

proof fn lemma_columns_of_entries(e: Seq<(usize, usize, usize)>, dj: int)
    requires
        forall|q: int| 0 <= q < e.len() ==> (#[trigger] e[q]).0 == dj,
    ensures
        columns_of(column_entries(e), dj) == column_pairs(e),
    decreases e.len(),
{
    if e.len() > 0 {
        assert(e.last() == e[e.len() - 1]);
        assert forall|q: int| 0 <= q < e.drop_last().len() implies (#[trigger] e.drop_last()[q]).0 == dj by {
            assert(e.drop_last()[q] == e[q]);
        }
        lemma_columns_of_entries(e.drop_last(), dj);
        assert(column_entries(e).drop_last() =~= column_entries(e.drop_last()));
        assert(column_pairs(e) =~= column_pairs(e.drop_last()).push((e.last().1 as int, e.last().2 as int)));
        assert(columns_of(column_entries(e), dj) =~= column_pairs(e));
    }
}

proof fn lemma_column_entries_split(v: Seq<(usize, usize, usize)>, n: int)
    requires
        0 <= n <= v.len(),
    ensures
        column_entries(v) == column_entries(v.take(n)) + column_entries(v.skip(n)),
{
    assert(column_entries(v) =~= column_entries(v.take(n)) + column_entries(v.skip(n)));
}

proof fn lemma_renamed_frame(
    b: DatabaseSchemaModel,
    d: DatabaseSchemaModel,
    tables: Seq<(int, int)>,
    cols: Seq<(int, int, int)>,
    c: Seq<(int, int, int)>,
    k: nat,
)
    requires
        k <= tables.len(),
        forall|q: int, m: int| 0 <= q < c.len() && 0 <= m < k ==> (#[trigger] c[q]).0 != (#[trigger] tables[m]).1,
    ensures
        renamed_table_questions(b, d, tables, cols + c, k) == renamed_table_questions(b, d, tables, cols, k),
    decreases k,
{
    if k > 0 {
        lemma_renamed_frame(b, d, tables, cols, c, (k - 1) as nat);
        let j = tables[k - 1].1;
        lemma_columns_of_append(cols, c, j);
        assert forall|q: int| 0 <= q < c.len() implies (#[trigger] c[q]).0 != j by {
            assert(c[q].0 != tables[k - 1].1);
        }
        lemma_columns_of_none(c, j);
        assert(columns_of(cols + c, j) =~= columns_of(cols, j));
    }
}

proof fn lemma_surviving_frame(
    b: DatabaseSchemaModel,
    d: DatabaseSchemaModel,
    cols: Seq<(int, int, int)>,
    c: Seq<(int, int, int)>,
    n: nat,
)
    requires
        forall|q: int| 0 <= q < c.len() ==> (#[trigger] c[q]).0 >= n || !is_surviving(b, d, c[q].0),
    ensures
        surviving_table_questions(b, d, cols + c, n) == surviving_table_questions(b, d, cols, n),
    decreases n,
{
    if n > 0 {
        assert forall|q: int| 0 <= q < c.len() implies (#[trigger] c[q]).0 >= n - 1 || !is_surviving(b, d, c[q].0) by {}
        lemma_surviving_frame(b, d, cols, c, (n - 1) as nat);
        let j = n - 1;
        if is_surviving(b, d, j) {
            lemma_columns_of_append(cols, c, j);
            assert forall|q: int| 0 <= q < c.len() implies (#[trigger] c[q]).0 != j by {}
            lemma_columns_of_none(c, j);
            assert(columns_of(cols + c, j) =~= columns_of(cols, j));
        }
    }
}

/// Decides the renames of a diff: first the tables (see `plan_tables`), then
/// the removed/added columns of each renamed table, then those of each table
/// present on both sides, each question put to `resolver` in that order:
/// the resolver ends as the replay of `rename_questions` for the plan.
#[verifier::loop_isolation(false)]
#[verifier::rlimit(50)]
pub fn plan_renames<R: RenameResolver>(b: &DatabaseSchema, d: &DatabaseSchema, resolver: &mut R) -> (plan: RenamePlan)
    ensures
        valid_plan(b@, d@, plan@),
        old(resolver).declines_all() ==> plan@ == no_renames(),
        final(resolver).declines_all() == old(resolver).declines_all(),
        *final(resolver) == replay(*old(resolver), rename_questions(b@, d@, plan@)),
{
    let ghost declines = resolver.declines_all();
    let ghost r0 = *resolver;
    let tables = plan_tables(b, d, resolver);
    let ghost pt = RenamePlanModel { tables: table_entries(tables@), columns: seq![] };
    let ghost tq = table_questions(b@, d@, pt.tables);
    assert(pt.tables.len() == tables@.len());
    let mut columns: Vec<(usize, usize, usize)> = Vec::new();
    let mut k: usize = 0;
    assert(tq + renamed_table_questions(b@, d@, pt.tables, column_entries(columns@), 0) =~= tq);
    while k < tables.len()
        invariant
            k <= tables@.len(),
            resolver.declines_all() == declines,
            *resolver == replay(r0, tq + renamed_table_questions(b@, d@, pt.tables, column_entries(columns@), k as nat)),
            declines ==> columns@.len() == 0,
            valid_table_renames(b@, d@, pt),
            pt.tables == table_entries(tables@),
            forall|q: int| 0 <= q < columns@.len() ==> valid_column_rename(b@, d@, pt, column_entry(#[trigger] columns@[q])),
            forall|q1: int, q2: int| 0 <= q1 < q2 < columns@.len() && (#[trigger] columns@[q1]).0 == (#[trigger] columns@[q2]).0 ==>
                columns@[q1].1 != columns@[q2].1 && columns@[q1].2 != columns@[q2].2,
            forall|q: int, r: int| 0 <= q < columns@.len() && k <= r < tables@.len() ==> (#[trigger] columns@[q]).0 < (#[trigger] tables@[r]).1,
            forall|q: int| 0 <= q < columns@.len() ==> is_created(b@, d@, (#[trigger] columns@[q]).0 as int),
        decreases tables@.len() - k,
    {
        let (i, j) = tables[k];
        assert(pt.tables[k as int] == (i as int, j as int));
        proof {
            assert forall|r: int| 0 <= r < k implies (#[trigger] pt.tables[r]).1 != j by {}
            lemma_find_first_at(pt.tables, renamed_into(j as int), k as int);
            assert(rename_source(pt, j as int) == Some(i as int));
        }
        let ghost before = columns@;
        let ghost rb = *resolver;
        plan_columns(b.tables.value_at(i), d.tables.value_at(j), j, resolver, &mut columns);
        proof {
            let added = columns@.skip(before.len() as int);
            assert(columns@.take(before.len() as int) == before);
            lemma_column_entries_split(columns@, before.len() as int);
            let ea = column_entries(added);
            assert forall|q: int| 0 <= q < ea.len() implies (#[trigger] ea[q]).0 == j as int by {
                assert(added[q] == columns@[before.len() + q]);
            }
            assert forall|q: int, m: int| 0 <= q < ea.len() && 0 <= m < k implies (#[trigger] ea[q]).0 != (#[trigger] pt.tables[m]).1 by {
                assert(pt.tables[m] == (tables@[m].0 as int, tables@[m].1 as int));
            }
            lemma_renamed_frame(b@, d@, pt.tables, column_entries(before), ea, k as nat);
            assert forall|q: int| 0 <= q < added.len() implies (#[trigger] added[q]).0 == j by {
                assert(added[q] == columns@[before.len() + q]);
            }
            lemma_columns_of_entries(added, j as int);
            let eb = column_entries(before);
            assert forall|q: int| 0 <= q < eb.len() implies (#[trigger] eb[q]).0 != j as int by {
                assert(before[q].0 < tables@[k as int].1);
            }
            lemma_columns_of_none(eb, j as int);
            lemma_columns_of_append(eb, ea, j as int);
            assert(columns_of(column_entries(columns@), j as int) =~= column_pairs(added));
            lemma_replay_concat(r0, tq + renamed_table_questions(b@, d@, pt.tables, eb, k as nat),
                column_questions(b@.tables[i as int].1, d@.tables[j as int].1, column_pairs(added)));
            assert(tq + renamed_table_questions(b@, d@, pt.tables, column_entries(columns@), (k + 1) as nat)
                =~= tq + renamed_table_questions(b@, d@, pt.tables, eb, k as nat)
                    + column_questions(b@.tables[i as int].1, d@.tables[j as int].1, column_pairs(added)));
            assert forall|q: int| 0 <= q < columns@.len() implies valid_column_rename(b@, d@, pt, column_entry(#[trigger] columns@[q])) by {
                if q < before.len() {
                    assert(columns@.take(before.len() as int)[q] == before[q]);
                }
            }
            assert forall|q1: int, q2: int| 0 <= q1 < q2 < columns@.len() && (#[trigger] columns@[q1]).0 == (#[trigger] columns@[q2]).0 implies
                columns@[q1].1 != columns@[q2].1 && columns@[q1].2 != columns@[q2].2 by {
                if q2 < before.len() {
                    assert(columns@.take(before.len() as int)[q1] == before[q1]);
                    assert(columns@.take(before.len() as int)[q2] == before[q2]);
                } else if q1 < before.len() {
                    assert(columns@.take(before.len() as int)[q1] == before[q1]);
                    assert(before[q1].0 < tables@[k as int].1);
                }
            }
            assert forall|q: int, r: int| 0 <= q < columns@.len() && k + 1 <= r < tables@.len() implies (#[trigger] columns@[q]).0 < (#[trigger] tables@[r]).1 by {
                if q < before.len() {
                    assert(columns@.take(before.len() as int)[q] == before[q]);
                    assert(before[q].0 < tables@[r].1);
                } else {
                    assert(pt.tables[r] == (tables@[r].0 as int, tables@[r].1 as int));
                }
            }
            assert(is_dropped(b@, d@, pt.tables[k as int].0));
            assert forall|q: int| 0 <= q < columns@.len() implies is_created(b@, d@, (#[trigger] columns@[q]).0 as int) by {
                if q < before.len() {
                    assert(columns@.take(before.len() as int)[q] == before[q]);
                }
            }
        }
        k = k + 1;
    }
    let ghost cols1 = columns@;
    let ghost rq = tq + renamed_table_questions(b@, d@, pt.tables, column_entries(cols1), tables@.len() as nat);
    assert(rq + surviving_table_questions(b@, d@, column_entries(columns@), 0) =~= rq);
    let mut j: usize = 0;
    while j < d.tables.len()
        invariant
            j <= d@.tables.len(),
            resolver.declines_all() == declines,
            *resolver == replay(r0, rq + surviving_table_questions(b@, d@, column_entries(columns@), j as nat)),
            cols1.len() <= columns@.len(),
            columns@.take(cols1.len() as int) == cols1,
            forall|q: int| cols1.len() <= q < columns@.len() ==> is_surviving(b@, d@, (#[trigger] columns@[q]).0 as int),
            declines ==> columns@.len() == 0,
            valid_table_renames(b@, d@, pt),
            pt.tables == table_entries(tables@),
            forall|q: int| 0 <= q < columns@.len() ==> valid_column_rename(b@, d@, pt, column_entry(#[trigger] columns@[q])),
            forall|q1: int, q2: int| 0 <= q1 < q2 < columns@.len() && (#[trigger] columns@[q1]).0 == (#[trigger] columns@[q2]).0 ==>
                columns@[q1].1 != columns@[q2].1 && columns@[q1].2 != columns@[q2].2,
            forall|q: int| 0 <= q < columns@.len() ==> (#[trigger] columns@[q]).0 < j || is_created(b@, d@, columns@[q].0 as int),
        decreases d@.tables.len() - j,
    {
        let t = d.tables.value_at(j);
        let key = t.qualified_name();
        match b.tables.get(key.as_str()) {
            Some(bt) => {
                proof {
                    let pr = renamed_into(j as int);
                    lemma_find_first_some(pt.tables, pr);
                    if find_first(pt.tables, pr) is Some {
                        let kk = choose|kk: int| 0 <= kk < pt.tables.len() && pt.tables[kk] == find_first(pt.tables, pr)->0 && pr(pt.tables[kk]);
                        assert(is_dropped(b@, d@, pt.tables[kk].0));
                        assert(is_created(b@, d@, pt.tables[kk].1));
                    }
                    assert(rename_source(pt, j as int) is None);
                }
                let ghost before = columns@;
                plan_columns(bt, t, j, resolver, &mut columns);
                proof {
                    let added = columns@.skip(before.len() as int);
                    assert(columns@.take(before.len() as int) == before);
                    lemma_column_entries_split(columns@, before.len() as int);
                    let ea = column_entries(added);
                    let eb = column_entries(before);
                    assert forall|q: int| 0 <= q < added.len() implies (#[trigger] added[q]).0 == j by {
                        assert(added[q] == columns@[before.len() + q]);
                    }
                    assert forall|q: int| 0 <= q < ea.len() implies (#[trigger] ea[q]).0 >= j as int || !is_surviving(b@, d@, ea[q].0) by {
                        assert(added[q] == columns@[before.len() + q]);
                    }
                    lemma_surviving_frame(b@, d@, eb, ea, j as nat);
                    lemma_columns_of_entries(added, j as int);
                    assert forall|q: int| 0 <= q < eb.len() implies (#[trigger] eb[q]).0 != j as int by {
                        assert(before[q].0 < j || is_created(b@, d@, before[q].0 as int));
                    }
                    lemma_columns_of_none(eb, j as int);
                    lemma_columns_of_append(eb, ea, j as int);
                    assert(columns_of(column_entries(columns@), j as int) =~= column_pairs(added));
                    assert(is_surviving(b@, d@, j as int));
                    assert(table_key(d@.tables[j as int].1) == key@);
                    lemma_replay_concat(r0, rq + surviving_table_questions(b@, d@, eb, j as nat),
                        column_questions(bt@, t@, column_pairs(added)));
                    assert(rq + surviving_table_questions(b@, d@, column_entries(columns@), (j + 1) as nat)
                        =~= rq + surviving_table_questions(b@, d@, eb, j as nat) + column_questions(bt@, t@, column_pairs(added)));
                    assert forall|q: int| cols1.len() <= q < columns@.len() implies is_surviving(b@, d@, (#[trigger] columns@[q]).0 as int) by {
                        if q < before.len() {
                            assert(columns@.take(before.len() as int)[q] == before[q]);
                        } else {
                            assert(added[q - before.len()] == columns@[q]);
                        }
                    }
                    assert(columns@.take(cols1.len() as int) =~= before.take(cols1.len() as int));
                    assert forall|q: int| 0 <= q < columns@.len() implies valid_column_rename(b@, d@, pt, column_entry(#[trigger] columns@[q])) by {
                        if q < before.len() {
                            assert(columns@.take(before.len() as int)[q] == before[q]);
                        }
                    }
                    assert forall|q1: int, q2: int| 0 <= q1 < q2 < columns@.len() && (#[trigger] columns@[q1]).0 == (#[trigger] columns@[q2]).0 implies
                        columns@[q1].1 != columns@[q2].1 && columns@[q1].2 != columns@[q2].2 by {
                        if q2 < before.len() {
                            assert(columns@.take(before.len() as int)[q1] == before[q1]);
                            assert(columns@.take(before.len() as int)[q2] == before[q2]);
                        } else if q1 < before.len() {
                            assert(columns@.take(before.len() as int)[q1] == before[q1]);
                        }
                    }
                    assert forall|q: int| 0 <= q < columns@.len() implies (#[trigger] columns@[q]).0 < j + 1 || is_created(b@, d@, columns@[q].0 as int) by {
                        if q < before.len() {
                            assert(columns@.take(before.len() as int)[q] == before[q]);
                        }
                    }
                }
            },
            None => {
                proof {
                    assert(!is_surviving(b@, d@, j as int));
                    assert(surviving_table_questions(b@, d@, column_entries(columns@), (j + 1) as nat)
                        =~= surviving_table_questions(b@, d@, column_entries(columns@), j as nat));
                }
            },
        }
        j = j + 1;
    }
    let plan = RenamePlan { tables, columns };
    proof {
        assert(plan@.columns =~= column_entries(columns@));
        lemma_column_entries_split(columns@, cols1.len() as int);
        let ec = column_entries(columns@.skip(cols1.len() as int));
        assert forall|q: int, m: int| 0 <= q < ec.len() && 0 <= m < tables@.len() implies (#[trigger] ec[q]).0 != (#[trigger] pt.tables[m]).1 by {
            assert(columns@.skip(cols1.len() as int)[q] == columns@[cols1.len() + q]);
            assert(is_created(b@, d@, pt.tables[m].1));
        }
        lemma_renamed_frame(b@, d@, pt.tables, column_entries(cols1), ec, tables@.len() as nat);
        assert(rename_questions(b@, d@, plan@) =~= rq + surviving_table_questions(b@, d@, column_entries(columns@), d@.tables.len() as nat));
        assert(plan@.tables == pt.tables);
        assert forall|q: int| 0 <= q < plan@.columns.len() implies valid_column_rename(b@, d@, plan@, #[trigger] plan@.columns[q]) by {
            assert(plan@.columns[q] == column_entry(columns@[q]));
            assert(valid_column_rename(b@, d@, pt, column_entry(columns@[q])));
        }
        assert forall|q1: int, q2: int| 0 <= q1 < q2 < plan@.columns.len() && (#[trigger] plan@.columns[q1]).0 == (#[trigger] plan@.columns[q2]).0 implies
            plan@.columns[q1].1 != plan@.columns[q2].1 && plan@.columns[q1].2 != plan@.columns[q2].2 by {
            assert(plan@.columns[q1] == column_entry(columns@[q1]));
            assert(plan@.columns[q2] == column_entry(columns@[q2]));
        }
        if declines {
            assert(plan@.tables =~= seq![]);
            assert(plan@.columns =~= seq![]);
        }
    }
    plan
}

// ---------------------------------------------------------------------------
// The whole diff

/// Baseline tables that are dropped: gone from the desired side and not
/// renamed into a created table (baseline positions, in key order).
pub open spec fn dropped_tables(b: DatabaseSchemaModel, d: DatabaseSchemaModel, p: RenamePlanModel) -> Seq<int> {
    concat_map(indices(b.tables.len()), |i: int| if is_dropped(b, d, i) && !renamed_away(p, i) { seq![i] } else { seq![] })
}

/// Desired tables that are created: new on the desired side and not the
/// target of a rename (desired positions, in key order).
pub open spec fn new_tables(b: DatabaseSchemaModel, d: DatabaseSchemaModel, p: RenamePlanModel) -> Seq<int> {
    concat_map(indices(d.tables.len()), |j: int| if is_created(b, d, j) && rename_source(p, j) is None { seq![j] } else { seq![] })
}

/// The changes of a renamed table: the rename, then its column and
/// constraint changes.
pub open spec fn rename_changes(b: DatabaseSchemaModel, d: DatabaseSchemaModel, p: RenamePlanModel, t: (int, int)) -> Seq<SchemaChangeModel> {
    let old = b.tables[t.0].1;
    let new = d.tables[t.1].1;
    seq![SchemaChangeModel::RenameTable { table: table_ref(old), to: new.name }]
        + column_changes(old, new, t.1, p, d.enums) + constraint_changes(old, new)
}

/// The column and constraint changes of a desired table that also exists in
/// the baseline under its qualified name.
pub open spec fn surviving_changes(b: DatabaseSchemaModel, d: DatabaseSchemaModel, p: RenamePlanModel, j: int) -> Seq<SchemaChangeModel> {
    if is_surviving(b, d, j) {
        let new = d.tables[j].1;
        let old = lookup(b.tables, table_key(new))->0;
        column_changes(old, new, j, p, d.enums) + constraint_changes(old, new)
    } else {
        seq![]
    }
}

/// The indexes of a created table, created after every table exists.
pub open spec fn index_creates(t: TableModel) -> Seq<SchemaChangeModel> {
    concat_map(t.indexes, |x: IndexModel| seq![alter_table(table_ref(t), TableOpModel::CreateIndex(x))])
}

/// The changes that turn `b` into `d` under the rename plan `p`, in
/// dependency order: new schemas; drops of removed or changed views; drops
/// of removed tables; enum creates and replaces; new tables, referenced
/// tables first; renamed tables with their column and constraint changes;
/// column and constraint changes of surviving tables; indexes of new tables;
/// drops of removed enums; creates of new or changed views.
pub open spec fn diff_model(b: DatabaseSchemaModel, d: DatabaseSchemaModel, p: RenamePlanModel) -> Seq<SchemaChangeModel> {
    let dropped = dropped_tables(b, d, p);
    let order = creation_order(d.tables, new_tables(b, d, p));
    schema_creates(b, d)
        + view_drops(b, d)
        + concat_map(dropped, |i: int| seq![SchemaChangeModel::DropTable(table_ref(b.tables[i].1))])
        + enum_changes(b, d, keys_at(b.tables, dropped))
        + concat_map(order, |j: int| seq![SchemaChangeModel::CreateTable(d.tables[j].1)])
        + concat_map(p.tables, |t: (int, int)| rename_changes(b, d, p, t))
        + concat_map(indices(d.tables.len()), |j: int| surviving_changes(b, d, p, j))
        + concat_map(order, |j: int| index_creates(d.tables[j].1))
        + enum_drops(b, d)
        + view_creates(b, d)
}

pub proof fn lemma_rename_source_of(b: DatabaseSchemaModel, d: DatabaseSchemaModel, p: RenamePlanModel, k: int)
    requires
        valid_table_renames(b, d, p),
        0 <= k < p.tables.len(),
    ensures
        rename_source(p, p.tables[k].1) == Some(p.tables[k].0),
{
    assert forall|r: int| 0 <= r < k implies !renamed_into(p.tables[k].1)(#[trigger] p.tables[r]) by {
        assert(p.tables[r].0 != p.tables[k].0 && p.tables[r].1 < p.tables[k].1);
    }
    lemma_find_first_at(p.tables, renamed_into(p.tables[k].1), k);
}

pub proof fn lemma_rename_source_surviving(b: DatabaseSchemaModel, d: DatabaseSchemaModel, p: RenamePlanModel, j: int)
    requires
        valid_table_renames(b, d, p),
        is_surviving(b, d, j),
    ensures
        rename_source(p, j) is None,
{
    let pr = renamed_into(j);
    lemma_find_first_some(p.tables, pr);
    if find_first(p.tables, pr) is Some {
        let kk = choose|kk: int| 0 <= kk < p.tables.len() && p.tables[kk] == find_first(p.tables, pr)->0 && pr(p.tables[kk]);
        assert(is_dropped(b, d, p.tables[kk].0));
        assert(is_created(b, d, p.tables[kk].1));
    }
}

/// The column renames of a valid plan stay inside the tables they name.
pub proof fn lemma_plan_in_bounds(b: DatabaseSchemaModel, d: DatabaseSchemaModel, p: RenamePlanModel, dj: int)
    requires
        valid_plan(b, d, p),
    ensures
        column_plan_in_bounds(p, dj, old_table(b, d, p, dj).columns.len() as int, d.tables[dj].1.columns.len() as int),
{
    assert forall|k: int| 0 <= k < p.columns.len() && p.columns[k].0 == dj implies
        0 <= #[trigger] p.columns[k].1 < old_table(b, d, p, dj).columns.len() && 0 <= p.columns[k].2 < d.tables[dj].1.columns.len() by {
        assert(valid_column_rename(b, d, p, p.columns[k]));
    }
}

fn table_renamed_away(plan: &RenamePlan, i: usize) -> (r: bool)
    ensures
        r == renamed_away(plan@, i as int),
{
    let mut k: usize = 0;
    while k < plan.tables.len()
        invariant
            k <= plan.tables.len(),
            forall|m: int| 0 <= m < k ==> plan@.tables[m].0 != i,
        decreases plan.tables.len() - k,
    {
        if plan.tables[k].0 == i {
            assert(plan@.tables[k as int].0 == i);
            return true;
        }
        k = k + 1;
    }
    false
}

fn rename_source_of(plan: &RenamePlan, j: usize) -> (r: Option<usize>)
    ensures
        match r {
            Some(i) => rename_source(plan@, j as int) == Some(i as int),
            None => rename_source(plan@, j as int) is None,
        },
{
    let ghost ts = plan@.tables;
    let ghost pr = renamed_into(j as int);
    let mut k: usize = 0;
    assert(ts.skip(0) =~= ts);
    while k < plan.tables.len()
        invariant
            k <= plan.tables.len(),
            ts == plan@.tables,
            ts.len() == plan.tables@.len(),
            pr == renamed_into(j as int),
            find_first(ts, pr) == find_first(ts.skip(k as int), pr),
        decreases plan.tables.len() - k,
    {
        let (i, to) = plan.tables[k];
        assert(ts[k as int] == (i as int, to as int));
        if to == j {
            assert(ts.skip(k as int)[0] == ts[k as int]);
            return Some(i);
        }
        proof { lemma_find_first_skip(ts, pr, k as int); }
        k = k + 1;
    }
    assert(ts.skip(k as int).len() == 0);
    None
}

#[verifier::loop_isolation(false)]
fn drop_tables(b: &DatabaseSchema, d: &DatabaseSchema, plan: &RenamePlan) -> (out: (Vec<SchemaChange>, Vec<String>))
    ensures
        changes_view(out.0@) == concat_map(dropped_tables(b@, d@, plan@), |i: int| seq![SchemaChangeModel::DropTable(table_ref(b@.tables[i].1))]),
        strings_view(out.1@) == keys_at(b@.tables, dropped_tables(b@, d@, plan@)),
{
    let ghost f = |i: int| if is_dropped(b@, d@, i) && !renamed_away(plan@, i) { seq![i] } else { seq![] };
    let ghost g = |i: int| seq![SchemaChangeModel::DropTable(table_ref(b@.tables[i].1))];
    let ghost is = indices(b@.tables.len());
    let mut changes: Vec<SchemaChange> = Vec::new();
    let mut doomed: Vec<String> = Vec::new();
    let mut i: usize = 0;
    while i < b.tables.len()
        invariant
            i <= b@.tables.len(),
            is == indices(b@.tables.len()),
            changes_view(changes@) == concat_map(concat_map(is.take(i as int), f), g),
            strings_view(doomed@) == keys_at(b@.tables, concat_map(is.take(i as int), f)),
        decreases b@.tables.len() - i,
    {
        let t = b.tables.value_at(i);
        let key = t.qualified_name();
        let ghost before = concat_map(is.take(i as int), f);
        proof { lemma_concat_map_step(is, f, i as int); }
        assert(is[i as int] == i);
        if !d.tables.contains_key(key.as_str()) && !table_renamed_away(plan, i) {
            push_change(&mut changes, SchemaChange::DropTable(t.reference()));
            let ghost doomed_before = doomed@;
            let ghost kv = key@;
            doomed.push(key);
            assert(strings_view(doomed@) =~= strings_view(doomed_before).push(kv));
            assert(keys_at(b@.tables, before.push(i as int)) =~= keys_at(b@.tables, before).push(table_key(b@.tables[i as int].1)));
            proof { lemma_concat_map_step(before.push(i as int), g, before.len() as int); }
            assert(before.push(i as int).take(before.len() as int) =~= before);
            assert(before.push(i as int).take(before.len() + 1 as int) =~= before.push(i as int));
            assert(concat_map(is.take(i + 1), f) =~= before.push(i as int));
            assert(strings_view(doomed@) =~= keys_at(b@.tables, before.push(i as int)));
        } else {
            assert(concat_map(is.take(i + 1), f) =~= before);
        }
        i = i + 1;
    }
    assert(is.take(b@.tables.len() as int) =~= is);
    (changes, doomed)
}

#[verifier::loop_isolation(false)]
fn created_tables(b: &DatabaseSchema, d: &DatabaseSchema, plan: &RenamePlan) -> (created: Vec<usize>)
    ensures
        positions_of(created@) == new_tables(b@, d@, plan@),
        forall|q: int| 0 <= q < created@.len() ==> (#[trigger] created@[q]) < d@.tables.len(),
{
    let ghost f = |j: int| if is_created(b@, d@, j) && rename_source(plan@, j) is None { seq![j] } else { seq![] };
    let ghost js = indices(d@.tables.len());
    let mut created: Vec<usize> = Vec::new();
    let mut j: usize = 0;
    while j < d.tables.len()
        invariant
            j <= d@.tables.len(),
            js == indices(d@.tables.len()),
            positions_of(created@) == concat_map(js.take(j as int), f),
            forall|q: int| 0 <= q < created@.len() ==> (#[trigger] created@[q]) < d@.tables.len(),
        decreases d@.tables.len() - j,
    {
        let t = d.tables.value_at(j);
        let key = t.qualified_name();
        proof { lemma_concat_map_step(js, f, j as int); }
        assert(js[j as int] == j);
        let ghost before = created@;
        if !b.tables.contains_key(key.as_str()) && rename_source_of(plan, j).is_none() {
            created.push(j);
            assert(positions_of(created@) =~= positions_of(before).push(j as int));
        }
        j = j + 1;
    }
    assert(js.take(d@.tables.len() as int) =~= js);
    created
}

#[verifier::loop_isolation(false)]
fn create_tables(d: &DatabaseSchema, order: &Vec<usize>) -> (changes: Vec<SchemaChange>)
    requires
        forall|q: int| 0 <= q < order@.len() ==> (#[trigger] order@[q]) < d@.tables.len(),
    ensures
        changes_view(changes@) == concat_map(positions_of(order@), |j: int| seq![SchemaChangeModel::CreateTable(d@.tables[j].1)]),
{
    let ghost f = |j: int| seq![SchemaChangeModel::CreateTable(d@.tables[j].1)];
    let ghost ps = positions_of(order@);
    let mut changes: Vec<SchemaChange> = Vec::new();
    let mut k: usize = 0;
    while k < order.len()
        invariant
            k <= order.len(),
            ps == positions_of(order@),
            changes_view(changes@) == concat_map(ps.take(k as int), f),
        decreases order.len() - k,
    {
        let t = d.tables.value_at(order[k]);
        push_change(&mut changes, SchemaChange::CreateTable(t.duplicate()));
        proof { lemma_concat_map_step(ps, f, k as int); }
        k = k + 1;
    }
    assert(ps.take(order.len() as int) =~= ps);
    changes
}

#[verifier::loop_isolation(false)]
fn create_indexes(d: &DatabaseSchema, order: &Vec<usize>) -> (changes: Vec<SchemaChange>)
    requires
        forall|q: int| 0 <= q < order@.len() ==> (#[trigger] order@[q]) < d@.tables.len(),
    ensures
        changes_view(changes@) == concat_map(positions_of(order@), |j: int| index_creates(d@.tables[j].1)),
{
    let ghost f = |j: int| index_creates(d@.tables[j].1);
    let ghost ps = positions_of(order@);
    let mut changes: Vec<SchemaChange> = Vec::new();
    let mut k: usize = 0;
    while k < order.len()
        invariant
            k <= order.len(),
            ps == positions_of(order@),
            changes_view(changes@) == concat_map(ps.take(k as int), f),
        decreases order.len() - k,
    {
        let t = d.tables.value_at(order[k]);
        let table = t.reference();
        let ghost g = |x: IndexModel| seq![alter_table(table_ref(t@), TableOpModel::CreateIndex(x))];
        let ghost before = changes_view(changes@);
        let mut m: usize = 0;
        while m < t.indexes.len()
            invariant
                m <= t.indexes.len(),
                table@ == table_ref(t@),
                changes_view(changes@) == before + concat_map(t@.indexes.take(m as int), g),
            decreases t.indexes.len() - m,
        {
            push_change(&mut changes, SchemaChange::AlterTable { table: table.duplicate(), op: TableOp::CreateIndex(t.indexes[m].duplicate()) });
            proof { lemma_concat_map_step(t@.indexes, g, m as int); }
            assert(changes_view(changes@) =~= before + concat_map(t@.indexes.take(m + 1), g));
            m = m + 1;
        }
        assert(t@.indexes.take(t.indexes.len() as int) =~= t@.indexes);
        proof { lemma_concat_map_step(ps, f, k as int); }
        k = k + 1;
    }
    assert(ps.take(order.len() as int) =~= ps);
    changes
}

#[verifier::loop_isolation(false)]
#[verifier::rlimit(30)]
fn rename_diffs(b: &DatabaseSchema, d: &DatabaseSchema, plan: &RenamePlan) -> (changes: Vec<SchemaChange>)
    requires
        valid_plan(b@, d@, plan@),
    ensures
        changes_view(changes@) == concat_map(plan@.tables, |t: (int, int)| rename_changes(b@, d@, plan@, t)),
{
    let ghost f = |t: (int, int)| rename_changes(b@, d@, plan@, t);
    let mut changes: Vec<SchemaChange> = Vec::new();
    let mut k: usize = 0;
    while k < plan.tables.len()
        invariant
            k <= plan.tables.len(),
            changes_view(changes@) == concat_map(plan@.tables.take(k as int), f),
        decreases plan.tables.len() - k,
    {
        let (i, j) = plan.tables[k];
        assert(plan@.tables[k as int] == (i as int, j as int));
        assert(is_dropped(b@, d@, plan@.tables[k as int].0));
        let old_t = b.tables.value_at(i);
        let new_t = d.tables.value_at(j);
        proof {
            lemma_rename_source_of(b@, d@, plan@, k as int);
            lemma_plan_in_bounds(b@, d@, plan@, j as int);
        }
        let ghost before = changes_view(changes@);
        push_change(&mut changes, SchemaChange::RenameTable { table: old_t.reference(), to: new_t.name.clone() });
        let cols = column_diff(old_t, new_t, j, plan, d);
        extend_changes(&mut changes, cols);
        let cons = constraint_diff(old_t, new_t);
        extend_changes(&mut changes, cons);
        proof { lemma_concat_map_step(plan@.tables, f, k as int); }
        assert(changes_view(changes@) =~= before + f(plan@.tables[k as int]));
        k = k + 1;
    }
    assert(plan@.tables.take(plan.tables.len() as int) =~= plan@.tables);
    changes
}

#[verifier::loop_isolation(false)]
fn surviving_diffs(b: &DatabaseSchema, d: &DatabaseSchema, plan: &RenamePlan) -> (changes: Vec<SchemaChange>)
    requires
        valid_plan(b@, d@, plan@),
    ensures
        changes_view(changes@) == concat_map(indices(d@.tables.len()), |j: int| surviving_changes(b@, d@, plan@, j)),
{
    let ghost f = |j: int| surviving_changes(b@, d@, plan@, j);
    let ghost js = indices(d@.tables.len());
    let mut changes: Vec<SchemaChange> = Vec::new();
    let mut j: usize = 0;
    while j < d.tables.len()
        invariant
            j <= d@.tables.len(),
            js == indices(d@.tables.len()),
            changes_view(changes@) == concat_map(js.take(j as int), f),
        decreases d@.tables.len() - j,
    {
        let new_t = d.tables.value_at(j);
        let key = new_t.qualified_name();
        let ghost before = changes_view(changes@);
        match b.tables.get(key.as_str()) {
            Some(old_t) => {
                proof {
                    lemma_rename_source_surviving(b@, d@, plan@, j as int);
                    lemma_plan_in_bounds(b@, d@, plan@, j as int);
                }
                let cols = column_diff(old_t, new_t, j, plan, d);
                extend_changes(&mut changes, cols);
                let cons = constraint_diff(old_t, new_t);
                extend_changes(&mut changes, cons);
            },
            None => {},
        }
        proof { lemma_concat_map_step(js, f, j as int); }
        assert(js[j as int] == j);
        assert(changes_view(changes@) =~= before + f(j as int));
        j = j + 1;
    }
    assert(js.take(d@.tables.len() as int) =~= js);
    changes
}

/// The changes that turn `baseline` into `desired` under a rename plan the
/// caller has already settled (see [`plan_renames`]).
pub fn diff_planned(baseline: &DatabaseSchema, desired: &DatabaseSchema, plan: &RenamePlan) -> (changes: Vec<SchemaChange>)
    requires
        valid_plan(baseline@, desired@, plan@),
    ensures
        changes_view(changes@) == diff_model(baseline@, desired@, plan@),
{
    let b = baseline;
    let d = desired;
    let mut changes = diff_schemas(b, d);
    let part = drop_views(b, d);
    extend_changes(&mut changes, part);
    let (drops, doomed) = drop_tables(b, d, plan);
    extend_changes(&mut changes, drops);
    let part = diff_enums(b, d, &doomed);
    extend_changes(&mut changes, part);
    let created = created_tables(b, d, plan);
    let order = order_by_dependencies(d, created);
    let part = create_tables(d, &order);
    extend_changes(&mut changes, part);
    let part = rename_diffs(b, d, plan);
    extend_changes(&mut changes, part);
    let part = surviving_diffs(b, d, plan);
    extend_changes(&mut changes, part);
    let part = create_indexes(d, &order);
    extend_changes(&mut changes, part);
    let part = drop_enums(b, d);
    extend_changes(&mut changes, part);
    let part = create_views(b, d);
    extend_changes(&mut changes, part);
    changes
}

/// Computes the changes that turn `baseline` into `desired`, asking
/// `resolver` whether each removed/added pair of tables or columns is a
/// rename. The result is the diff under the valid rename plan that the
/// resolver's answers settle on: the resolver has answered exactly the
/// questions `rename_questions` lists for that plan, in that order; a
/// resolver that declines every rename gets the plan that renames nothing.
pub fn diff<R: RenameResolver>(baseline: &DatabaseSchema, desired: &DatabaseSchema, resolver: &mut R) -> (changes: Vec<SchemaChange>)
    ensures
        exists|p: RenamePlanModel| {
            &&& valid_plan(baseline@, desired@, p)
            &&& (old(resolver).declines_all() ==> p == no_renames())
            &&& changes_view(changes@) == diff_model(baseline@, desired@, p)
            &&& *final(resolver) == replay(*old(resolver), rename_questions(baseline@, desired@, p))
        },
        final(resolver).declines_all() == old(resolver).declines_all(),
{
    let plan = plan_renames(baseline, desired, resolver);
    let changes = diff_planned(baseline, desired, &plan);
    assert(valid_plan(baseline@, desired@, plan@));
    changes
}

} // verus!





