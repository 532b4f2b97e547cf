//! What holds of the diff as a whole: a schema diffed against itself needs
//! no change.

use vstd::prelude::*;

use super::change::SchemaChangeModel;
use super::diff::{
    attribute_changes, column_adds, column_changes, column_drops, column_retypes, constraint_adds,
    constraint_changes, constraint_drops, diff_model, dropped_tables, enum_changes, enum_drops, index_adds,
    index_drops, indices, is_created, is_dropped, name_set, new_tables, no_renames, rename_changes, schema_creates,
    schemas_of, surviving_changes, table_key, valid_plan, view_creates, view_drops,
};
use super::model::{
    column_named, constraint_named, find_first, index_named, lemma_find_first_at, lemma_find_first_some, ColumnModel,
    ConstraintModel, DatabaseSchemaModel, IndexModel, TableModel,
};
use super::named::{insert_entry, lemma_first_key, lemma_insert_keeps_sorted, lookup, sorted_keys};
use super::order::{creation_order, keys_at, lemma_creation_order_in_bounds};
use crate::text::{concat_map, lemma_seq_lt_irreflexive};

verus! {

/// Names within a table are distinct: columns, constraints and indexes.
pub open spec fn distinct_names(t: TableModel) -> bool {
    &&& forall|i: int, j: int| #![trigger t.columns[i], t.columns[j]]
        0 <= i < j < t.columns.len() ==> t.columns[i].name != t.columns[j].name
    &&& forall|i: int, j: int| #![trigger t.constraints[i], t.constraints[j]]
        0 <= i < j < t.constraints.len() ==> t.constraints[i].name != t.constraints[j].name
    &&& forall|i: int, j: int| #![trigger t.indexes[i], t.indexes[j]]
        0 <= i < j < t.indexes.len() ==> t.indexes[i].name != t.indexes[j].name
}

/// A schema as the registry builds it: each map keyed once, in order, tables
/// keyed by their qualified names, and names distinct within each table.
pub open spec fn well_formed_schema(s: DatabaseSchemaModel) -> bool {
    &&& sorted_keys(s.enums)
    &&& sorted_keys(s.tables)
    &&& sorted_keys(s.views)
    &&& forall|i: int| 0 <= i < s.tables.len() ==> (#[trigger] s.tables[i]).0 == table_key(s.tables[i].1)
    &&& forall|i: int| 0 <= i < s.tables.len() ==> distinct_names(#[trigger] s.tables[i].1)
}

pub proof fn lemma_lookup_sorted<T>(m: Seq<(Seq<char>, T)>, i: int)
    requires
        sorted_keys(m),
        0 <= i < m.len(),
    ensures
        lookup(m, m[i].0) == Some(m[i].1),
{
    assert forall|j: int| 0 <= j < i implies m[j].0 != m[i].0 by {
        assert(crate::text::seq_lt(m[j].0, m[i].0));
        lemma_seq_lt_irreflexive(m[i].0);
    }
    lemma_first_key(m, m[i].0, i);
}

pub proof fn lemma_concat_map_nothing<A, B>(s: Seq<A>, f: spec_fn(A) -> Seq<B>)
    requires
        forall|k: int| 0 <= k < s.len() ==> f(#[trigger] s[k]) == Seq::<B>::empty(),
    ensures
        concat_map(s, f) == Seq::<B>::empty(),
    decreases s.len(),
{
    if s.len() > 0 {
        assert forall|k: int| 0 <= k < s.drop_last().len() implies f(#[trigger] s.drop_last()[k]) == Seq::<B>::empty() by {
            assert(s.drop_last()[k] == s[k]);
        }
        lemma_concat_map_nothing(s.drop_last(), f);
        assert(f(s[s.len() - 1]) == Seq::<B>::empty());
        assert(concat_map(s, f) =~= Seq::<B>::empty());
    }
}

pub proof fn lemma_name_set_sorted(names: Seq<Seq<char>>)
    ensures
        sorted_keys(name_set(names)),
    decreases names.len(),
{
    if names.len() > 0 {
        lemma_name_set_sorted(names.drop_last());
        lemma_insert_keeps_sorted(name_set(names.drop_last()), names.last(), true);
    }
}

/// With distinct names, the entry found by name is the entry itself.
proof fn lemma_named_self<T>(s: Seq<T>, name_of: spec_fn(T) -> Seq<char>, p: spec_fn(T) -> bool, k: int)
    requires
        0 <= k < s.len(),
        forall|i: int, j: int| 0 <= i < j < s.len() ==> name_of(#[trigger] s[i]) != name_of(#[trigger] s[j]),
        forall|x: T| #[trigger] p(x) == (name_of(x) == name_of(s[k])),
    ensures
        find_first(s, p) == Some(s[k]),
{
    assert forall|r: int| 0 <= r < k implies !p(#[trigger] s[r]) by {
        assert(name_of(s[r]) != name_of(s[k]));
    }
    lemma_find_first_at(s, p, k);
}

proof fn lemma_table_unchanged(t: TableModel, j: int, p: super::diff::RenamePlanModel, enums: Seq<(Seq<char>, super::model::EnumTypeModel)>)
    requires
        distinct_names(t),
    ensures
        column_changes(t, t, j, p, enums) == Seq::<SchemaChangeModel>::empty(),
        constraint_changes(t, t) == Seq::<SchemaChangeModel>::empty(),
{
    assert forall|k: int| 0 <= k < t.columns.len() implies column_named(t.columns, t.columns[k].name) == Some(#[trigger] t.columns[k]) by {
        lemma_named_self(t.columns, |c: ColumnModel| c.name, |c: ColumnModel| c.name == t.columns[k].name, k);
    }
    assert forall|k: int| 0 <= k < t.constraints.len() implies constraint_named(t.constraints, t.constraints[k].name) == Some(#[trigger] t.constraints[k]) by {
        lemma_named_self(t.constraints, |c: ConstraintModel| c.name, |c: ConstraintModel| c.name == t.constraints[k].name, k);
    }
    assert forall|k: int| 0 <= k < t.indexes.len() implies index_named(t.indexes, t.indexes[k].name) == Some(#[trigger] t.indexes[k]) by {
        lemma_named_self(t.indexes, |x: IndexModel| x.name, |x: IndexModel| x.name == t.indexes[k].name, k);
    }
    let is = indices(t.columns.len());
    let fa = |jj: int|
        if column_named(t.columns, t.columns[jj].name) is Some {
            seq![]
        } else {
            match super::diff::column_source(p, j, jj) {
                Some(o) => seq![super::diff::alter_column(super::diff::table_ref(t), super::change::ColumnOpModel::Rename { from: t.columns[o].name, to: t.columns[jj].name })]
                    + attribute_changes(super::diff::table_ref(t), t.columns[o], t.columns[jj], enums),
                None => seq![super::diff::alter_column(super::diff::table_ref(t), super::change::ColumnOpModel::Add(t.columns[jj]))],
            }
        };
    assert forall|k: int| 0 <= k < is.len() implies fa(#[trigger] is[k]) == Seq::<SchemaChangeModel>::empty() by {
        assert(is[k] == k);
        assert(column_named(t.columns, t.columns[k].name) == Some(t.columns[k]));
    }
    lemma_concat_map_nothing(is, fa);
    assert(column_adds(t, t, j, p, enums) == Seq::<SchemaChangeModel>::empty());
    let fd = |o: int|
        if column_named(t.columns, t.columns[o].name) is Some || super::diff::column_renamed_away(p, j, o) {
            seq![]
        } else {
            seq![super::diff::alter_column(super::diff::table_ref(t), super::change::ColumnOpModel::Drop(t.columns[o].name))]
        };
    assert forall|k: int| 0 <= k < is.len() implies fd(#[trigger] is[k]) == Seq::<SchemaChangeModel>::empty() by {
        assert(is[k] == k);
        assert(column_named(t.columns, t.columns[k].name) == Some(t.columns[k]));
    }
    lemma_concat_map_nothing(is, fd);
    assert(column_drops(t, t, j, p) == Seq::<SchemaChangeModel>::empty());
    let fr = |c: ColumnModel|
        match column_named(t.columns, c.name) {
            Some(oc) => attribute_changes(super::diff::table_ref(t), oc, c, enums),
            None => seq![],
        };
    assert forall|k: int| 0 <= k < t.columns.len() implies fr(#[trigger] t.columns[k]) == Seq::<SchemaChangeModel>::empty() by {
        assert(column_named(t.columns, t.columns[k].name) == Some(t.columns[k]));
        assert(attribute_changes(super::diff::table_ref(t), t.columns[k], t.columns[k], enums) =~= Seq::<SchemaChangeModel>::empty());
    }
    lemma_concat_map_nothing(t.columns, fr);
    assert(column_retypes(t, t, enums) == Seq::<SchemaChangeModel>::empty());
    assert(column_changes(t, t, j, p, enums) =~= Seq::<SchemaChangeModel>::empty());

    let f1 = |c: ConstraintModel|
        if super::diff::constraint_kept(t.constraints, c) { seq![] }
        else { seq![super::diff::alter_table(super::diff::table_ref(t), super::change::TableOpModel::DropConstraint(c.name))] };
    assert forall|k: int| 0 <= k < t.constraints.len() implies f1(#[trigger] t.constraints[k]) == Seq::<SchemaChangeModel>::empty() by {
        assert(constraint_named(t.constraints, t.constraints[k].name) == Some(t.constraints[k]));
    }
    lemma_concat_map_nothing(t.constraints, f1);
    let f2 = |c: ConstraintModel|
        if super::diff::constraint_kept(t.constraints, c) { seq![] }
        else { seq![super::diff::alter_table(super::diff::table_ref(t), super::change::TableOpModel::AddConstraint(c))] };
    assert forall|k: int| 0 <= k < t.constraints.len() implies f2(#[trigger] t.constraints[k]) == Seq::<SchemaChangeModel>::empty() by {
        assert(constraint_named(t.constraints, t.constraints[k].name) == Some(t.constraints[k]));
    }
    lemma_concat_map_nothing(t.constraints, f2);
    let f3 = |x: IndexModel|
        if super::diff::index_kept(t.indexes, x) { seq![] }
        else { seq![super::diff::alter_table(super::diff::table_ref(t), super::change::TableOpModel::DropIndex { schema: t.schema, name: x.name })] };
    assert forall|k: int| 0 <= k < t.indexes.len() implies f3(#[trigger] t.indexes[k]) == Seq::<SchemaChangeModel>::empty() by {
        assert(index_named(t.indexes, t.indexes[k].name) == Some(t.indexes[k]));
    }
    lemma_concat_map_nothing(t.indexes, f3);
    let f4 = |x: IndexModel|
        if super::diff::index_kept(t.indexes, x) { seq![] }
        else { seq![super::diff::alter_table(super::diff::table_ref(t), super::change::TableOpModel::CreateIndex(x))] };
    assert forall|k: int| 0 <= k < t.indexes.len() implies f4(#[trigger] t.indexes[k]) == Seq::<SchemaChangeModel>::empty() by {
        assert(index_named(t.indexes, t.indexes[k].name) == Some(t.indexes[k]));
    }
    lemma_concat_map_nothing(t.indexes, f4);
    assert(constraint_drops(t, t) == Seq::<SchemaChangeModel>::empty());
    assert(constraint_adds(t, t) == Seq::<SchemaChangeModel>::empty());
    assert(index_drops(t, t) == Seq::<SchemaChangeModel>::empty());
    assert(index_adds(t, t) == Seq::<SchemaChangeModel>::empty());
    assert(constraint_changes(t, t) =~= Seq::<SchemaChangeModel>::empty());
}

/// Diffing a well-formed schema against itself yields no change, under any
/// rename plan a resolver could settle on.
pub proof fn law_diff_identical_is_empty(s: DatabaseSchemaModel, p: super::diff::RenamePlanModel)
    requires
        well_formed_schema(s),
        valid_plan(s, s, p),
    ensures
        p == no_renames(),
        diff_model(s, s, p) == Seq::<SchemaChangeModel>::empty(),
{
    // every table survives, so nothing is created, dropped or renamed
    assert forall|i: int| 0 <= i < s.tables.len() implies lookup(s.tables, table_key(#[trigger] s.tables[i].1)) == Some(s.tables[i].1) by {
        lemma_lookup_sorted(s.tables, i);
    }
    if p.tables.len() > 0 {
        assert(is_dropped(s, s, p.tables[0].0));
        assert(is_created(s, s, p.tables[0].1));
        assert(lookup(s.tables, table_key(s.tables[p.tables[0].1].1)) is Some);
    }
    assert(p.tables =~= Seq::<(int, int)>::empty());
    if p.columns.len() > 0 {
        let c = p.columns[0];
        assert(super::diff::valid_column_rename(s, s, p, c));
        let t = s.tables[c.0].1;
        lemma_find_first_some(p.tables, super::diff::renamed_into(c.0));
        assert(super::diff::old_table(s, s, p, c.0) == t);
        lemma_named_self(t.columns, |x: ColumnModel| x.name, |x: ColumnModel| x.name == t.columns[c.1].name, c.1);
    }
    assert(p.columns =~= Seq::<(int, int, int)>::empty());

    // schemas
    let names = schemas_of(s);
    lemma_name_set_sorted(super::diff::schema_mentions(s));
    let fs = |x: Seq<char>|
        if x != "public"@ && lookup(schemas_of(s), x) is None {
            seq![SchemaChangeModel::CreateSchema(x)]
        } else {
            seq![]
        };
    let ks = super::named::keys_of(names);
    assert forall|k: int| 0 <= k < ks.len() implies fs(#[trigger] ks[k]) == Seq::<SchemaChangeModel>::empty() by {
        lemma_lookup_sorted(names, k);
    }
    lemma_concat_map_nothing(ks, fs);
    assert(schema_creates(s, s) == Seq::<SchemaChangeModel>::empty());

    // views
    let fvd = |e: (Seq<char>, super::model::SqlViewModel)|
        match lookup(s.views, e.0) {
            Some(dv) => if dv.definition != e.1.definition { seq![SchemaChangeModel::DropView(super::diff::view_ref(e.1))] } else { seq![] },
            None => seq![SchemaChangeModel::DropView(super::diff::view_ref(e.1))],
        };
    let fvc = |e: (Seq<char>, super::model::SqlViewModel)|
        match lookup(s.views, e.0) {
            Some(bv) => if bv.definition != e.1.definition { seq![SchemaChangeModel::CreateView(e.1)] } else { seq![] },
            None => seq![SchemaChangeModel::CreateView(e.1)],
        };
    assert forall|k: int| 0 <= k < s.views.len() implies fvd(#[trigger] s.views[k]) == Seq::<SchemaChangeModel>::empty() && fvc(s.views[k]) == Seq::<SchemaChangeModel>::empty() by {
        lemma_lookup_sorted(s.views, k);
    }
    lemma_concat_map_nothing(s.views, fvd);
    lemma_concat_map_nothing(s.views, fvc);

    // tables
    let fdrop = |i: int| if is_dropped(s, s, i) && !super::diff::renamed_away(p, i) { seq![i] } else { seq![] };
    let bis = indices(s.tables.len());
    assert forall|k: int| 0 <= k < bis.len() implies fdrop(#[trigger] bis[k]) == Seq::<int>::empty() by {
        assert(bis[k] == k);
        assert(lookup(s.tables, table_key(s.tables[k].1)) == Some(s.tables[k].1));
    }
    lemma_concat_map_nothing(bis, fdrop);
    assert(dropped_tables(s, s, p) == Seq::<int>::empty());
    let fnew = |j: int| if is_created(s, s, j) && super::diff::rename_source(p, j) is None { seq![j] } else { seq![] };
    assert forall|k: int| 0 <= k < bis.len() implies fnew(#[trigger] bis[k]) == Seq::<int>::empty() by {
        assert(bis[k] == k);
        assert(lookup(s.tables, table_key(s.tables[k].1)) == Some(s.tables[k].1));
    }
    lemma_concat_map_nothing(bis, fnew);
    assert(new_tables(s, s, p) == Seq::<int>::empty());
    let order = creation_order(s.tables, new_tables(s, s, p));
    assert(order == Seq::<int>::empty());
    assert(concat_map(Seq::<int>::empty(), |i: int| seq![SchemaChangeModel::DropTable(super::diff::table_ref(s.tables[i].1))]) =~= Seq::<SchemaChangeModel>::empty());
    assert(concat_map(order, |j: int| seq![SchemaChangeModel::CreateTable(s.tables[j].1)]) =~= Seq::<SchemaChangeModel>::empty());
    assert(concat_map(order, |j: int| super::diff::index_creates(s.tables[j].1)) =~= Seq::<SchemaChangeModel>::empty());
    assert(concat_map(p.tables, |t: (int, int)| rename_changes(s, s, p, t)) =~= Seq::<SchemaChangeModel>::empty());
    let fsurv = |j: int| surviving_changes(s, s, p, j);
    assert forall|k: int| 0 <= k < bis.len() implies fsurv(#[trigger] bis[k]) == Seq::<SchemaChangeModel>::empty() by {
        assert(bis[k] == k);
        assert(lookup(s.tables, table_key(s.tables[k].1)) == Some(s.tables[k].1));
        lemma_table_unchanged(s.tables[k].1, k, p, s.enums);
    }
    lemma_concat_map_nothing(bis, fsurv);

    // enums
    let fe = |e: (Seq<char>, super::model::EnumTypeModel)|
        match lookup(s.enums, e.0) {
            None => seq![SchemaChangeModel::CreateEnum(e.1)],
            Some(be) => if be.values == e.1.values {
                seq![]
            } else {
                seq![SchemaChangeModel::ReplaceEnum { old: be, new: e.1, dependents: super::diff::enum_dependents(s, e.0, keys_at(s.tables, dropped_tables(s, s, p))) }]
            },
        };
    let fed = |e: (Seq<char>, super::model::EnumTypeModel)|
        if lookup(s.enums, e.0) is Some { seq![] } else { seq![SchemaChangeModel::DropEnum(e.0)] };
    assert forall|k: int| 0 <= k < s.enums.len() implies fe(#[trigger] s.enums[k]) == Seq::<SchemaChangeModel>::empty() && fed(s.enums[k]) == Seq::<SchemaChangeModel>::empty() by {
        lemma_lookup_sorted(s.enums, k);
    }
    lemma_concat_map_nothing(s.enums, fe);
    lemma_concat_map_nothing(s.enums, fed);
    assert(enum_changes(s, s, keys_at(s.tables, dropped_tables(s, s, p))) == Seq::<SchemaChangeModel>::empty());
    assert(enum_drops(s, s) == Seq::<SchemaChangeModel>::empty());
    assert(view_drops(s, s) == Seq::<SchemaChangeModel>::empty());
    assert(view_creates(s, s) == Seq::<SchemaChangeModel>::empty());
    assert(diff_model(s, s, p) =~= Seq::<SchemaChangeModel>::empty());
}

} // verus!
