//! Creation order for new tables: a table referenced by a foreign key is
//! created before the tables that reference it.

use vstd::multiset::Multiset;
use vstd::prelude::*;

use super::diff::{name_set, table_key};
use super::model::{qualify, ColumnModel, DatabaseSchema, Table, TableModel};
use super::named::{
    has_key, insert_entry, lemma_insert_entry_keys, lemma_insert_entry_len, lemma_insert_keeps_sorted, lemma_lookup_has_key, lookup,
    sorted_keys, NamedMap,
};
use crate::text::{concat3, str_eq};

verus! {

/// The table a column's foreign key points at, as a qualified name.
pub open spec fn fk_target(c: ColumnModel) -> Option<Seq<char>> {
    match c.foreign_key {
        Some(fk) => Some(qualify(fk.schema, fk.table)),
        None => None,
    }
}

/// Every table `t` references is itself, one not being created, or one
/// already placed.
pub open spec fn dependencies_met(
    t: TableModel,
    creating: Seq<(Seq<char>, bool)>,
    placed: Seq<(Seq<char>, bool)>,
) -> bool {
    forall|k: int| 0 <= k < t.columns.len() ==> match fk_target(#[trigger] t.columns[k]) {
        Some(r) => r == table_key(t) || lookup(creating, r) is None || lookup(placed, r) is Some,
        None => true,
    }
}

/// One pass over `remaining` (positions into `tables`): tables whose
/// dependencies are met are placed in order, the others deferred. Returns
/// (placed positions, deferred positions, placed names).
pub open spec fn order_round(
    tables: Seq<(Seq<char>, TableModel)>,
    remaining: Seq<int>,
    creating: Seq<(Seq<char>, bool)>,
    placed: Seq<(Seq<char>, bool)>,
) -> (Seq<int>, Seq<int>, Seq<(Seq<char>, bool)>)
    decreases remaining.len(),
{
    if remaining.len() == 0 {
        (seq![], seq![], placed)
    } else {
        let (out, deferred, now) = order_round(tables, remaining.drop_last(), creating, placed);
        let t = tables[remaining.last()].1;
        if dependencies_met(t, creating, now) {
            (out.push(remaining.last()), deferred, insert_entry(now, table_key(t), true))
        } else {
            (out, deferred.push(remaining.last()), now)
        }
    }
}

/// A pass splits `remaining` between placed and deferred, and places a name
/// whenever it places a table.
pub proof fn lemma_order_round(
    tables: Seq<(Seq<char>, TableModel)>,
    remaining: Seq<int>,
    creating: Seq<(Seq<char>, bool)>,
    placed: Seq<(Seq<char>, bool)>,
)
    ensures
        ({
            let (out, deferred, now) = order_round(tables, remaining, creating, placed);
            &&& out.len() + deferred.len() == remaining.len()
            &&& out.len() == 0 ==> now == placed
            &&& out.to_multiset().add(deferred.to_multiset()) == remaining.to_multiset()
        }),
    decreases remaining.len(),
{
    broadcast use vstd::seq_lib::group_to_multiset_ensures;
    broadcast use vstd::multiset::group_multiset_axioms;

    if remaining.len() > 0 {
        let rest = remaining.drop_last();
        lemma_order_round(tables, rest, creating, placed);
        let (out, deferred, now) = order_round(tables, rest, creating, placed);
        let x = remaining.last();
        assert(remaining =~= rest.push(x));
        assert(out.push(x).to_multiset().add(deferred.to_multiset()) =~= remaining.to_multiset());
        assert(out.to_multiset().add(deferred.push(x).to_multiset()) =~= remaining.to_multiset());
    } else {
        assert(remaining.to_multiset() =~= Multiset::empty());
        let (out, deferred, now) = order_round(tables, remaining, creating, placed);
        assert(out =~= Seq::<int>::empty());
        assert(deferred =~= Seq::<int>::empty());
        assert(out.to_multiset() =~= Multiset::empty());
        assert(deferred.to_multiset() =~= Multiset::empty());
        assert(out.to_multiset().add(deferred.to_multiset()) =~= remaining.to_multiset());
    }
}

/// Repeated passes until every table is placed; when a pass places nothing
/// the deferred tables (a cycle) follow in their original order.
pub open spec fn order_from(
    tables: Seq<(Seq<char>, TableModel)>,
    remaining: Seq<int>,
    creating: Seq<(Seq<char>, bool)>,
    placed: Seq<(Seq<char>, bool)>,
) -> Seq<int>
    decreases remaining.len(),
{
    if remaining.len() == 0 {
        seq![]
    } else {
        let (out, deferred, now) = order_round(tables, remaining, creating, placed);
        if now.len() == placed.len() {
            out + deferred
        } else {
            proof { lemma_order_round(tables, remaining, creating, placed); }
            out + order_from(tables, deferred, creating, now)
        }
    }
}

/// The qualified names of the tables at `positions`.
pub open spec fn keys_at(tables: Seq<(Seq<char>, TableModel)>, positions: Seq<int>) -> Seq<Seq<char>> {
    positions.map_values(|j: int| table_key(tables[j].1))
}

/// The creation order of the tables at `positions`.
pub open spec fn creation_order(tables: Seq<(Seq<char>, TableModel)>, positions: Seq<int>) -> Seq<int> {
    order_from(tables, positions, name_set(keys_at(tables, positions)), seq![])
}

/// Ordering only rearranges: the result holds each position as often as
/// `remaining` does.
pub proof fn lemma_order_from_permutes(
    tables: Seq<(Seq<char>, TableModel)>,
    remaining: Seq<int>,
    creating: Seq<(Seq<char>, bool)>,
    placed: Seq<(Seq<char>, bool)>,
)
    ensures
        order_from(tables, remaining, creating, placed).to_multiset() == remaining.to_multiset(),
    decreases remaining.len(),
{
    broadcast use vstd::seq_lib::group_to_multiset_ensures;
    broadcast use vstd::multiset::group_multiset_axioms;

    if remaining.len() == 0 {
        assert(remaining.to_multiset() =~= Multiset::empty());
        assert(order_from(tables, remaining, creating, placed) =~= Seq::<int>::empty());
    } else {
        lemma_order_round(tables, remaining, creating, placed);
        let (out, deferred, now) = order_round(tables, remaining, creating, placed);
        if now.len() == placed.len() {
            vstd::seq_lib::lemma_multiset_commutative(out, deferred);
        } else {
            lemma_order_from_permutes(tables, deferred, creating, now);
            let rest = order_from(tables, deferred, creating, now);
            vstd::seq_lib::lemma_multiset_commutative(out, rest);
        }
    }
}

/// Positions in range stay in range.
pub proof fn lemma_creation_order_in_bounds(tables: Seq<(Seq<char>, TableModel)>, positions: Seq<int>)
    requires
        forall|q: int| 0 <= q < positions.len() ==> 0 <= #[trigger] positions[q] < tables.len(),
    ensures
        creation_order(tables, positions).len() == positions.len(),
        forall|q: int| 0 <= q < creation_order(tables, positions).len() ==>
            0 <= #[trigger] creation_order(tables, positions)[q] < tables.len(),
{
    broadcast use vstd::seq_lib::group_to_multiset_ensures;

    let r = creation_order(tables, positions);
    lemma_order_from_permutes(tables, positions, name_set(keys_at(tables, positions)), seq![]);
    assert(r.to_multiset() == positions.to_multiset());
    assert(r.to_multiset().len() == r.len());
    assert(positions.to_multiset().len() == positions.len());
    assert forall|q: int| 0 <= q < r.len() implies 0 <= #[trigger] r[q] < tables.len() by {
        assert(r.contains(r[q]));
        assert(r.to_multiset().count(r[q]) > 0);
        assert(positions.to_multiset().count(r[q]) > 0);
        assert(positions.contains(r[q]));
        let idx = choose|idx: int| 0 <= idx < positions.len() && positions[idx] == r[q];
    }
}

/// How many tables of `order_from` the passes place, before any remainder
/// whose references never get placed (a cycle).
pub open spec fn ordered_count(
    tables: Seq<(Seq<char>, TableModel)>,
    remaining: Seq<int>,
    creating: Seq<(Seq<char>, bool)>,
    placed: Seq<(Seq<char>, bool)>,
) -> nat
    decreases remaining.len(),
{
    if remaining.len() == 0 {
        0
    } else {
        let (out, deferred, now) = order_round(tables, remaining, creating, placed);
        if now.len() == placed.len() {
            out.len()
        } else {
            proof { lemma_order_round(tables, remaining, creating, placed); }
            out.len() + ordered_count(tables, deferred, creating, now)
        }
    }
}

/// Some table before position `i` of `order` is named `r`.
pub open spec fn placed_before(tables: Seq<(Seq<char>, TableModel)>, order: Seq<int>, i: int, r: Seq<char>) -> bool {
    exists|j: int| 0 <= j < i && #[trigger] table_key(tables[order[j]].1) == r
}

/// What a reference of the table at `order[i]` to `r` is owed: nothing when
/// it is to the table itself or to one not being created; otherwise `r` was
/// placed before, or earlier in `order`.
pub open spec fn reference_met(
    tables: Seq<(Seq<char>, TableModel)>,
    order: Seq<int>,
    i: int,
    r: Seq<char>,
    creating: Seq<(Seq<char>, bool)>,
    placed: Seq<(Seq<char>, bool)>,
) -> bool {
    r == table_key(tables[order[i]].1) || lookup(creating, r) is None || has_key(placed, r) || placed_before(tables, order, i, r)
}

proof fn lemma_round_references(
    tables: Seq<(Seq<char>, TableModel)>,
    remaining: Seq<int>,
    creating: Seq<(Seq<char>, bool)>,
    placed: Seq<(Seq<char>, bool)>,
)
    ensures
        ({
            let (out, deferred, now) = order_round(tables, remaining, creating, placed);
            &&& forall|k: int, c: int| 0 <= k < out.len() && 0 <= c < tables[out[k]].1.columns.len()
                ==> match #[trigger] fk_target(tables[out[k]].1.columns[c]) {
                    Some(r) => reference_met(tables, out, k, r, creating, placed),
                    None => true,
                }
            &&& forall|t: Seq<char>| #[trigger] has_key(now, t) == (has_key(placed, t) || placed_before(tables, out, out.len() as int, t))
        }),
    decreases remaining.len(),
{
    if remaining.len() > 0 {
        let rest = remaining.drop_last();
        lemma_round_references(tables, rest, creating, placed);
        let (out0, d0, now0) = order_round(tables, rest, creating, placed);
        let x = remaining.last();
        let t = tables[x].1;
        if dependencies_met(t, creating, now0) {
            let out = out0.push(x);
            let now = insert_entry(now0, table_key(t), true);
            assert forall|q: Seq<char>| #[trigger] has_key(now, q) == (has_key(placed, q) || placed_before(tables, out, out.len() as int, q)) by {
                lemma_insert_entry_keys(now0, table_key(t), true, q);
                if placed_before(tables, out0, out0.len() as int, q) {
                    let j = choose|j: int| 0 <= j < out0.len() && #[trigger] table_key(tables[out0[j]].1) == q;
                    assert(table_key(tables[out[j]].1) == q);
                }
                if q == table_key(t) {
                    assert(table_key(tables[out[out0.len() as int]].1) == q);
                }
                if placed_before(tables, out, out.len() as int, q) {
                    let j = choose|j: int| 0 <= j < out.len() && #[trigger] table_key(tables[out[j]].1) == q;
                    if j < out0.len() {
                        assert(table_key(tables[out0[j]].1) == q);
                    }
                }
            }
            assert forall|k: int, c: int| 0 <= k < out.len() && 0 <= c < tables[out[k]].1.columns.len()
                implies match #[trigger] fk_target(tables[out[k]].1.columns[c]) {
                    Some(r) => reference_met(tables, out, k, r, creating, placed),
                    None => true,
                } by {
                if k < out0.len() {
                    assert(out[k] == out0[k]);
                    assert(fk_target(tables[out0[k]].1.columns[c]) == fk_target(tables[out[k]].1.columns[c]));
                    if let Some(r) = fk_target(tables[out[k]].1.columns[c]) {
                        assert(reference_met(tables, out0, k, r, creating, placed));
                        if placed_before(tables, out0, k, r) {
                            let j = choose|j: int| 0 <= j < k && #[trigger] table_key(tables[out0[j]].1) == r;
                            assert(table_key(tables[out[j]].1) == r);
                        }
                    }
                } else {
                    assert(out[k] == x);
                    if let Some(r) = fk_target(tables[out[k]].1.columns[c]) {
                        assert(fk_target(t.columns[c]) == Some(r));
                        if !(r == table_key(t) || lookup(creating, r) is None) {
                            assert(lookup(now0, r) is Some);
                            lemma_lookup_has_key(now0, r);
                            assert(has_key(now0, r));
                            if placed_before(tables, out0, out0.len() as int, r) {
                                let j = choose|j: int| 0 <= j < out0.len() && #[trigger] table_key(tables[out0[j]].1) == r;
                                assert(table_key(tables[out[j]].1) == r);
                            }
                        }
                    }
                }
            }
        }
    }
}

proof fn lemma_ordered_count_bound(
    tables: Seq<(Seq<char>, TableModel)>,
    remaining: Seq<int>,
    creating: Seq<(Seq<char>, bool)>,
    placed: Seq<(Seq<char>, bool)>,
)
    ensures
        ordered_count(tables, remaining, creating, placed) <= order_from(tables, remaining, creating, placed).len(),
    decreases remaining.len(),
{
    if remaining.len() > 0 {
        lemma_order_round(tables, remaining, creating, placed);
        let (out, deferred, now) = order_round(tables, remaining, creating, placed);
        if now.len() != placed.len() {
            lemma_ordered_count_bound(tables, deferred, creating, now);
        }
    }
}

proof fn lemma_order_references(
    tables: Seq<(Seq<char>, TableModel)>,
    remaining: Seq<int>,
    creating: Seq<(Seq<char>, bool)>,
    placed: Seq<(Seq<char>, bool)>,
    i: int,
    c: int,
)
    requires
        0 <= i < ordered_count(tables, remaining, creating, placed),
        0 <= c < tables[order_from(tables, remaining, creating, placed)[i]].1.columns.len(),
    ensures
        match fk_target(tables[order_from(tables, remaining, creating, placed)[i]].1.columns[c]) {
            Some(r) => reference_met(tables, order_from(tables, remaining, creating, placed), i, r, creating, placed),
            None => true,
        },
    decreases remaining.len(),
{
    lemma_order_round(tables, remaining, creating, placed);
    lemma_round_references(tables, remaining, creating, placed);
    let (out, deferred, now) = order_round(tables, remaining, creating, placed);
    let res = order_from(tables, remaining, creating, placed);
    if i < out.len() {
        assert(res[i] == out[i]);
        if let Some(r) = fk_target(tables[res[i]].1.columns[c]) {
            assert(fk_target(tables[out[i]].1.columns[c]) == Some(r));
            if placed_before(tables, out, i, r) {
                let j = choose|j: int| 0 <= j < i && #[trigger] table_key(tables[out[j]].1) == r;
                assert(table_key(tables[res[j]].1) == r);
            }
        }
    } else {
        let rest = order_from(tables, deferred, creating, now);
        let n = out.len() as int;
        assert(now.len() != placed.len());
        assert(res == out + rest);
        lemma_ordered_count_bound(tables, deferred, creating, now);
        assert(res[i] == rest[i - n]);
        lemma_order_references(tables, deferred, creating, now, i - n, c);
        if let Some(r) = fk_target(tables[res[i]].1.columns[c]) {
            assert(reference_met(tables, rest, i - n, r, creating, now));
            if has_key(now, r) {
                if placed_before(tables, out, n, r) {
                    let j = choose|j: int| 0 <= j < n && #[trigger] table_key(tables[out[j]].1) == r;
                    assert(table_key(tables[res[j]].1) == r);
                }
            }
            if placed_before(tables, rest, i - n, r) {
                let j = choose|j: int| 0 <= j < i - n && #[trigger] table_key(tables[rest[j]].1) == r;
                assert(table_key(tables[res[j + n]].1) == r);
            }
        }
    }
}

/// A name is in the set built from `names` exactly when `names` holds it.
pub proof fn lemma_name_set_keys(names: Seq<Seq<char>>, r: Seq<char>)
    ensures
        has_key(name_set(names), r) == names.contains(r),
    decreases names.len(),
{
    if names.len() > 0 {
        lemma_name_set_keys(names.drop_last(), r);
        lemma_insert_entry_keys(name_set(names.drop_last()), names.last(), true, r);
        assert(names =~= names.drop_last().push(names.last()));
        if names.drop_last().contains(r) {
            let k = choose|k: int| 0 <= k < names.drop_last().len() && names.drop_last()[k] == r;
            assert(names[k] == r);
        }
        if names.contains(r) && r != names.last() {
            let k = choose|k: int| 0 <= k < names.len() && names[k] == r;
            assert(names.drop_last()[k] == r);
        }
    }
}

/// In the creation order, a table placed by the passes (all of them, unless
/// references form a cycle) comes after every created table it references
/// by foreign key, a reference to itself aside.
pub proof fn law_referenced_tables_come_first(tables: Seq<(Seq<char>, TableModel)>, positions: Seq<int>, i: int, c: int)
    requires
        0 <= i < ordered_count(tables, positions, name_set(keys_at(tables, positions)), seq![]),
        0 <= c < tables[creation_order(tables, positions)[i]].1.columns.len(),
    ensures
        match fk_target(tables[creation_order(tables, positions)[i]].1.columns[c]) {
            Some(r) => r == table_key(tables[creation_order(tables, positions)[i]].1)
                || !keys_at(tables, positions).contains(r)
                || placed_before(tables, creation_order(tables, positions), i, r),
            None => true,
        },
{
    let creating = name_set(keys_at(tables, positions));
    lemma_order_references(tables, positions, creating, seq![], i, c);
    if let Some(r) = fk_target(tables[creation_order(tables, positions)[i]].1.columns[c]) {
        lemma_lookup_has_key(creating, r);
        lemma_name_set_keys(keys_at(tables, positions), r);
    }
}

/// Some created table that `t` references, other than itself, is not
/// placed.
pub open spec fn blocked(t: TableModel, creating: Seq<(Seq<char>, bool)>, placed: Seq<(Seq<char>, bool)>) -> bool {
    exists|c: int| 0 <= c < t.columns.len() && match #[trigger] fk_target(t.columns[c]) {
        Some(r) => r != table_key(t) && lookup(creating, r) is Some && !has_key(placed, r),
        None => false,
    }
}

proof fn lemma_round_leftovers(
    tables: Seq<(Seq<char>, TableModel)>,
    remaining: Seq<int>,
    creating: Seq<(Seq<char>, bool)>,
    placed: Seq<(Seq<char>, bool)>,
)
    requires
        sorted_keys(placed),
    ensures
        ({
            let (out, deferred, now) = order_round(tables, remaining, creating, placed);
            &&& sorted_keys(now)
            &&& now.len() >= placed.len()
            &&& forall|t: Seq<char>| has_key(placed, t) ==> #[trigger] has_key(now, t)
            &&& now.len() == placed.len() ==> forall|t: Seq<char>| #[trigger] has_key(now, t) == has_key(placed, t)
            &&& forall|k: int| 0 <= k < deferred.len() ==> blocked(#[trigger] tables[deferred[k]].1, creating, placed)
        }),
    decreases remaining.len(),
{
    if remaining.len() > 0 {
        let rest = remaining.drop_last();
        lemma_round_leftovers(tables, rest, creating, placed);
        let (out0, d0, now0) = order_round(tables, rest, creating, placed);
        let x = remaining.last();
        let t = tables[x].1;
        if dependencies_met(t, creating, now0) {
            let now = insert_entry(now0, table_key(t), true);
            lemma_insert_keeps_sorted(now0, table_key(t), true);
            lemma_insert_entry_len(now0, table_key(t), true);
            assert forall|q: Seq<char>| has_key(placed, q) implies #[trigger] has_key(now, q) by {
                lemma_insert_entry_keys(now0, table_key(t), true, q);
            }
            if now.len() == placed.len() {
                assert forall|q: Seq<char>| #[trigger] has_key(now, q) == has_key(placed, q) by {
                    lemma_insert_entry_keys(now0, table_key(t), true, q);
                }
            }
        } else {
            let deferred = d0.push(x);
            assert(!dependencies_met(t, creating, now0));
            let c = choose|c: int| 0 <= c < t.columns.len() && !(match fk_target(#[trigger] t.columns[c]) {
                Some(r) => r == table_key(t) || lookup(creating, r) is None || lookup(now0, r) is Some,
                None => true,
            });
            let r = fk_target(t.columns[c])->0;
            lemma_lookup_has_key(now0, r);
            assert(!has_key(placed, r));
            assert(blocked(t, creating, placed));
            assert forall|k: int| 0 <= k < deferred.len() implies blocked(#[trigger] tables[deferred[k]].1, creating, placed) by {
                if k < d0.len() {
                    assert(deferred[k] == d0[k]);
                }
            }
        }
    }
}

/// A table left by the passes in `order_from` references a created table,
/// other than itself, that is neither placed before nor among those the
/// passes place.
pub open spec fn left_waiting(
    tables: Seq<(Seq<char>, TableModel)>,
    order: Seq<int>,
    count: int,
    t: TableModel,
    creating: Seq<(Seq<char>, bool)>,
    placed: Seq<(Seq<char>, bool)>,
) -> bool {
    exists|c: int| 0 <= c < t.columns.len() && match #[trigger] fk_target(t.columns[c]) {
        Some(r) => r != table_key(t) && lookup(creating, r) is Some && !has_key(placed, r)
            && !placed_before(tables, order, count, r),
        None => false,
    }
}

proof fn lemma_order_leftovers(
    tables: Seq<(Seq<char>, TableModel)>,
    remaining: Seq<int>,
    creating: Seq<(Seq<char>, bool)>,
    placed: Seq<(Seq<char>, bool)>,
    i: int,
)
    requires
        sorted_keys(placed),
        ordered_count(tables, remaining, creating, placed) <= i < order_from(tables, remaining, creating, placed).len(),
    ensures
        left_waiting(
            tables,
            order_from(tables, remaining, creating, placed),
            ordered_count(tables, remaining, creating, placed) as int,
            tables[order_from(tables, remaining, creating, placed)[i]].1,
            creating,
            placed,
        ),
    decreases remaining.len(),
{
    lemma_order_round(tables, remaining, creating, placed);
    lemma_round_references(tables, remaining, creating, placed);
    lemma_round_leftovers(tables, remaining, creating, placed);
    let (out, deferred, now) = order_round(tables, remaining, creating, placed);
    let res = order_from(tables, remaining, creating, placed);
    let count = ordered_count(tables, remaining, creating, placed) as int;
    let n = out.len() as int;
    if now.len() == placed.len() {
        assert(res == out + deferred);
        assert(res[i] == deferred[i - n]);
        let t = tables[deferred[i - n]].1;
        assert(blocked(t, creating, placed));
        let c = choose|c: int| 0 <= c < t.columns.len() && match #[trigger] fk_target(t.columns[c]) {
            Some(r) => r != table_key(t) && lookup(creating, r) is Some && !has_key(placed, r),
            None => false,
        };
        let r = fk_target(t.columns[c])->0;
        if placed_before(tables, res, count, r) {
            let j = choose|j: int| 0 <= j < count && #[trigger] table_key(tables[res[j]].1) == r;
            assert(table_key(tables[out[j]].1) == r);
            assert(placed_before(tables, out, n, r));
            assert(has_key(now, r));
        }
        assert(left_waiting(tables, res, count, t, creating, placed));
    } else {
        let rest = order_from(tables, deferred, creating, now);
        let rest_count = ordered_count(tables, deferred, creating, now) as int;
        assert(res == out + rest);
        assert(res[i] == rest[i - n]);
        lemma_order_leftovers(tables, deferred, creating, now, i - n);
        let t = tables[rest[i - n]].1;
        let c = choose|c: int| 0 <= c < t.columns.len() && match #[trigger] fk_target(t.columns[c]) {
            Some(r) => r != table_key(t) && lookup(creating, r) is Some && !has_key(now, r)
                && !placed_before(tables, rest, rest_count, r),
            None => false,
        };
        let r = fk_target(t.columns[c])->0;
        if placed_before(tables, res, count, r) {
            let j = choose|j: int| 0 <= j < count && #[trigger] table_key(tables[res[j]].1) == r;
            if j < n {
                assert(table_key(tables[out[j]].1) == r);
                assert(placed_before(tables, out, n, r));
            } else {
                assert(table_key(tables[rest[j - n]].1) == r);
                assert(placed_before(tables, rest, rest_count, r));
            }
        }
        assert(left_waiting(tables, res, count, t, creating, placed));
    }
}

/// Tables the passes leave unplaced wait on one another: each references
/// another created table that the passes leave unplaced too, so they form
/// a reference cycle.
pub proof fn law_unplaced_tables_wait_on_each_other(tables: Seq<(Seq<char>, TableModel)>, positions: Seq<int>, i: int)
    requires
        ordered_count(tables, positions, name_set(keys_at(tables, positions)), seq![]) <= i
            < creation_order(tables, positions).len(),
    ensures
        ({
            let order = creation_order(tables, positions);
            let count = ordered_count(tables, positions, name_set(keys_at(tables, positions)), seq![]) as int;
            let t = tables[order[i]].1;
            exists|c: int| 0 <= c < t.columns.len() && match #[trigger] fk_target(t.columns[c]) {
                Some(r) => r != table_key(t) && keys_at(tables, positions).contains(r)
                    && !placed_before(tables, order, count, r),
                None => false,
            }
        }),
{
    let creating = name_set(keys_at(tables, positions));
    let order = creation_order(tables, positions);
    let count = ordered_count(tables, positions, creating, seq![]) as int;
    lemma_order_leftovers(tables, positions, creating, seq![], i);
    let t = tables[order[i]].1;
    let c = choose|c: int| 0 <= c < t.columns.len() && match #[trigger] fk_target(t.columns[c]) {
        Some(r) => r != table_key(t) && lookup(creating, r) is Some && !has_key(Seq::<(Seq<char>, bool)>::empty(), r)
            && !placed_before(tables, order, count, r),
        None => false,
    };
    let r = fk_target(t.columns[c])->0;
    lemma_lookup_has_key(creating, r);
    lemma_name_set_keys(keys_at(tables, positions), r);
}

pub open spec fn positions_of(v: Seq<usize>) -> Seq<int> {
    v.map_values(|j: usize| j as int)
}

/// Whether `t`'s foreign keys all point at itself, at a table not being
/// created, or at one already placed.
#[verifier::loop_isolation(false)]
fn dependencies_satisfied(t: &Table, creating: &NamedMap<bool>, placed: &NamedMap<bool>) -> (ok: bool)
    ensures
        ok == dependencies_met(t@, creating@, placed@),
{
    let own = t.qualified_name();
    let mut k: usize = 0;
    while k < t.columns.len()
        invariant
            k <= t.columns.len(),
            forall|m: int| 0 <= m < k ==> match fk_target(#[trigger] t@.columns[m]) {
                Some(r) => r == table_key(t@) || lookup(creating@, r) is None || lookup(placed@, r) is Some,
                None => true,
            },
        decreases t.columns.len() - k,
    {
        match &t.columns[k].foreign_key {
            Some(fk) => {
                let referenced = concat3(fk.schema.as_str(), ".", fk.table.as_str());
                let met = str_eq(referenced.as_str(), own.as_str())
                    || !creating.contains_key(referenced.as_str())
                    || placed.contains_key(referenced.as_str());
                if !met {
                    assert(fk_target(t@.columns[k as int]) == Some(referenced@));
                    return false;
                }
            },
            None => {},
        }
        k = k + 1;
    }
    true
}

fn order_pass(
    d: &DatabaseSchema,
    remaining: &Vec<usize>,
    creating: &NamedMap<bool>,
    placed: &mut NamedMap<bool>,
    ordered: &mut Vec<usize>,
) -> (deferred: Vec<usize>)
    requires
        forall|q: int| 0 <= q < remaining@.len() ==> (#[trigger] remaining@[q]) < d@.tables.len(),
    ensures
        ({
            let (out, df, now) = order_round(d@.tables, positions_of(remaining@), creating@, old(placed)@);
            &&& positions_of(final(ordered)@) == positions_of(old(ordered)@) + out
            &&& positions_of(deferred@) == df
            &&& final(placed)@ == now
        }),
        forall|q: int| 0 <= q < deferred@.len() ==> (#[trigger] deferred@[q]) < d@.tables.len(),
{
    let ghost start = positions_of(ordered@);
    let ghost placed0 = placed@;
    let ghost rs = positions_of(remaining@);
    let mut deferred: Vec<usize> = Vec::new();
    let mut m: usize = 0;
    while m < remaining.len()
        invariant
            m <= remaining.len(),
            forall|q: int| 0 <= q < remaining@.len() ==> (#[trigger] remaining@[q]) < d@.tables.len(),
            rs == positions_of(remaining@),
            ({
                let (out, df, now) = order_round(d@.tables, rs.take(m as int), creating@, placed0);
                &&& positions_of(ordered@) == start + out
                &&& positions_of(deferred@) == df
                &&& placed@ == now
            }),
            forall|q: int| 0 <= q < deferred@.len() ==> (#[trigger] deferred@[q]) < d@.tables.len(),
        decreases remaining.len() - m,
    {
        let j = remaining[m];
        let t = d.tables.value_at(j);
        assert(rs.take(m + 1).drop_last() =~= rs.take(m as int));
        assert(rs.take(m + 1).last() == j as int);
        let ghost ord_before = ordered@;
        let ghost def_before = deferred@;
        let ghost prev = order_round(d@.tables, rs.take(m as int), creating@, placed0);
        if dependencies_satisfied(t, creating, placed) {
            placed.insert(t.qualified_name(), true);
            ordered.push(j);
            assert(positions_of(ordered@) =~= positions_of(ord_before).push(j as int));
            assert(positions_of(ordered@) =~= start + prev.0.push(j as int));
        } else {
            deferred.push(j);
            assert(positions_of(deferred@) =~= positions_of(def_before).push(j as int));
        }
        assert(positions_of(ordered@) =~= start + order_round(d@.tables, rs.take(m + 1), creating@, placed0).0);
        assert(positions_of(deferred@) =~= order_round(d@.tables, rs.take(m + 1), creating@, placed0).1);
        m = m + 1;
    }
    assert(rs.take(remaining.len() as int) =~= rs);
    deferred
}

fn order_rest(
    d: &DatabaseSchema,
    remaining: Vec<usize>,
    creating: &NamedMap<bool>,
    placed: NamedMap<bool>,
) -> (ordered: Vec<usize>)
    requires
        forall|q: int| 0 <= q < remaining@.len() ==> (#[trigger] remaining@[q]) < d@.tables.len(),
    ensures
        positions_of(ordered@) == order_from(d@.tables, positions_of(remaining@), creating@, placed@),
    decreases remaining@.len(),
{
    let mut ordered: Vec<usize> = Vec::new();
    if remaining.len() == 0 {
        assert(positions_of(ordered@) =~= seq![]);
        return ordered;
    }
    let mut placed = placed;
    let ghost placed0 = placed@;
    let before = placed.len();
    let mut deferred = order_pass(d, &remaining, creating, &mut placed, &mut ordered);
    proof { lemma_order_round(d@.tables, positions_of(remaining@), creating@, placed0); }
    if placed.len() == before {
        let ghost o = ordered@;
        ordered.append(&mut deferred);
        assert(positions_of(ordered@) =~= positions_of(o) + order_round(d@.tables, positions_of(remaining@), creating@, placed0).1);
        ordered
    } else {
        let ghost o = ordered@;
        let mut rest = order_rest(d, deferred, creating, placed);
        let ghost r = rest@;
        ordered.append(&mut rest);
        assert(positions_of(ordered@) =~= positions_of(o) + positions_of(r));
        ordered
    }
}

/// Orders the tables at `created` (positions into the desired schema) so
/// that a table referenced by a foreign key comes before the tables that
/// reference it. Self-references and references to tables not being created
/// impose no order; a cyclic group keeps its original order.
#[verifier::loop_isolation(false)]
pub fn order_by_dependencies(d: &DatabaseSchema, created: Vec<usize>) -> (ordered: Vec<usize>)
    requires
        forall|q: int| 0 <= q < created@.len() ==> (#[trigger] created@[q]) < d@.tables.len(),
    ensures
        positions_of(ordered@) == creation_order(d@.tables, positions_of(created@)),
        forall|q: int| 0 <= q < ordered@.len() ==> (#[trigger] ordered@[q]) < d@.tables.len(),
{
    let ghost ps = positions_of(created@);
    let mut creating: NamedMap<bool> = NamedMap::new();
    let mut m: usize = 0;
    while m < created.len()
        invariant
            m <= created.len(),
            ps == positions_of(created@),
            creating@ == name_set(keys_at(d@.tables, ps.take(m as int))),
        decreases created.len() - m,
    {
        let t = d.tables.value_at(created[m]);
        creating.insert(t.qualified_name(), true);
        assert(keys_at(d@.tables, ps.take(m + 1)).drop_last() =~= keys_at(d@.tables, ps.take(m as int)));
        m = m + 1;
    }
    assert(ps.take(created.len() as int) =~= ps);
    let placed: NamedMap<bool> = NamedMap::new();
    let ordered = order_rest(d, created, &creating, placed);
    proof {
        assert forall|q: int| 0 <= q < ps.len() implies 0 <= #[trigger] ps[q] < d@.tables.len() by {
            assert(ps[q] == created@[q] as int);
        }
        lemma_creation_order_in_bounds(d@.tables, ps);
        assert forall|q: int| 0 <= q < ordered@.len() implies (#[trigger] ordered@[q]) < d@.tables.len() by {
            assert(positions_of(ordered@)[q] == ordered@[q] as int);
        }
    }
    ordered
}

} // verus!
