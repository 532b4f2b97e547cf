//! What the questions a diff puts to its rename resolver promise: a schema
//! diffed against itself asks nothing, and no rename is made that the
//! resolver did not answer yes to.

use vstd::prelude::*;

use super::diff::{
    column_question, column_questions, columns_of, is_created, is_dropped, is_surviving, keep_added, keep_created,
    keep_dropped, keep_removed, kept_positions, no_renames, offer, questions_upto, remove_value, rename_questions,
    rename_source, renamed_into, renamed_table_questions, same_schema, same_type, source_of,
    surviving_table_questions, table_key, table_question, table_questions, valid_column_rename, valid_plan,
    RenamePlanModel, RenameQuestion,
};
use super::laws::{law_diff_identical_is_empty, lemma_lookup_sorted, well_formed_schema};
use super::model::{lemma_find_first_some, DatabaseSchemaModel};
use super::named::lookup;

verus! {

/// The answer recorded with a question.
pub open spec fn said_yes(q: RenameQuestion) -> bool {
    match q {
        RenameQuestion::Table { yes, .. } => yes,
        RenameQuestion::Column { yes, .. } => yes,
    }
}

proof fn lemma_nothing_asked(
    plan: Seq<(int, int)>,
    n: nat,
    candidates: Seq<int>,
    target: spec_fn(int) -> bool,
    eligible: spec_fn(int, int) -> bool,
    question: spec_fn(int, int, bool) -> RenameQuestion,
)
    requires
        forall|j: int| 0 <= j < n ==> !#[trigger] target(j),
    ensures
        questions_upto(plan, n, candidates, target, eligible, question).0 == Seq::<RenameQuestion>::empty(),
    decreases n,
{
    if n > 0 {
        lemma_nothing_asked(plan, (n - 1) as nat, candidates, target, eligible, question);
    }
}

proof fn lemma_surviving_nothing(s: DatabaseSchemaModel, n: nat)
    requires
        well_formed_schema(s),
        n <= s.tables.len(),
    ensures
        surviving_table_questions(s, s, Seq::<(int, int, int)>::empty(), n) == Seq::<RenameQuestion>::empty(),
    decreases n,
{
    if n > 0 {
        lemma_surviving_nothing(s, (n - 1) as nat);
        let j = n - 1;
        lemma_lookup_sorted(s.tables, j);
        let t = s.tables[j].1;
        assert(lookup(s.tables, table_key(t)) == Some(t));
        let ka = keep_added(t, t);
        assert forall|x: int| 0 <= x < t.columns.len() implies !#[trigger] ka(x) by {
            lemma_find_first_some(t.columns, |c: super::model::ColumnModel| c.name == t.columns[x].name);
        }
        lemma_nothing_asked(
            columns_of(Seq::<(int, int, int)>::empty(), j),
            t.columns.len(),
            kept_positions(t.columns.len(), keep_removed(t, t)),
            keep_added(t, t),
            same_type(t, t),
            column_question(t, t),
        );
        assert(surviving_table_questions(s, s, Seq::<(int, int, int)>::empty(), n) =~= Seq::<RenameQuestion>::empty());
    }
}

/// A well-formed schema diffed against itself puts no question to the
/// resolver: nothing is dropped, created or renamed, so the resolver ends
/// as it began.
pub proof fn law_identical_schemas_ask_nothing(s: DatabaseSchemaModel, p: RenamePlanModel)
    requires
        well_formed_schema(s),
        valid_plan(s, s, p),
    ensures
        rename_questions(s, s, p) == Seq::<RenameQuestion>::empty(),
{
    law_diff_identical_is_empty(s, p);
    let kc = keep_created(s, s);
    assert forall|j: int| 0 <= j < s.tables.len() implies !#[trigger] kc(j) by {
        lemma_lookup_sorted(s.tables, j);
    }
    lemma_nothing_asked(
        p.tables,
        s.tables.len(),
        kept_positions(s.tables.len(), keep_dropped(s, s)),
        keep_created(s, s),
        same_schema(s, s),
        table_question(s, s),
    );
    lemma_surviving_nothing(s, s.tables.len());
    assert(rename_questions(s, s, p) =~= Seq::<RenameQuestion>::empty());
}

proof fn lemma_kept_contains(n: nat, keep: spec_fn(int) -> bool, x: int)
    requires
        0 <= x < n,
        keep(x),
    ensures
        kept_positions(n, keep).contains(x),
    decreases n,
{
    let rest = kept_positions((n - 1) as nat, keep);
    if x == n - 1 {
        assert((rest + seq![x])[rest.len() as int] == x);
    } else {
        lemma_kept_contains((n - 1) as nat, keep, x);
        let i = choose|i: int| 0 <= i < rest.len() && rest[i] == x;
        let tail: Seq<int> = if keep(n - 1) { seq![n - 1] } else { seq![] };
        assert((rest + tail)[i] == x);
    }
}

proof fn lemma_remove_keeps(s: Seq<int>, v: int, x: int)
    requires
        x != v,
        s.contains(x),
    ensures
        remove_value(s, v).contains(x),
    decreases s.len(),
{
    let i = choose|i: int| 0 <= i < s.len() && s[i] == x;
    if s[0] == v {
        assert(i > 0);
        assert(s.drop_first()[i - 1] == x);
    } else if i == 0 {
        assert(remove_value(s, v)[0] == x);
    } else {
        assert(s.drop_first()[i - 1] == x);
        lemma_remove_keeps(s.drop_first(), v, x);
        let rest = remove_value(s.drop_first(), v);
        let k = choose|k: int| 0 <= k < rest.len() && rest[k] == x;
        assert((seq![s[0]] + rest)[k + 1] == x);
    }
}

proof fn lemma_source_found(plan: Seq<(int, int)>, j: int)
    requires
        source_of(plan, j) is Some,
    ensures
        plan.contains((source_of(plan, j)->0, j)),
    decreases plan.len(),
{
    if plan.last().1 == j {
        assert(plan[plan.len() - 1] == (source_of(plan, j)->0, j));
    } else {
        lemma_source_found(plan.drop_last(), j);
        let k = choose|k: int| 0 <= k < plan.drop_last().len() && plan.drop_last()[k] == (source_of(plan, j)->0, j);
        assert(plan[k] == plan.drop_last()[k]);
    }
}

proof fn lemma_source_unique(plan: Seq<(int, int)>, c: int, j: int)
    requires
        plan.contains((c, j)),
        forall|e: (int, int)| plan.contains(e) && e.1 == j ==> e.0 == c,
    ensures
        source_of(plan, j) == Some(c),
    decreases plan.len(),
{
    let last = plan.last();
    assert(plan.contains(last)) by {
        assert(plan[plan.len() - 1] == last);
    }
    if last.1 != j {
        let k = choose|k: int| 0 <= k < plan.len() && plan[k] == (c, j);
        assert(k < plan.len() - 1);
        assert(plan.drop_last()[k] == (c, j));
        assert forall|e: (int, int)| plan.drop_last().contains(e) && e.1 == j implies e.0 == c by {
            let m = choose|m: int| 0 <= m < plan.drop_last().len() && plan.drop_last()[m] == e;
            assert(plan[m] == e);
            assert(plan.contains(e));
        }
        lemma_source_unique(plan.drop_last(), c, j);
    }
}

proof fn lemma_left_keeps(
    plan: Seq<(int, int)>,
    n: nat,
    candidates: Seq<int>,
    target: spec_fn(int) -> bool,
    eligible: spec_fn(int, int) -> bool,
    question: spec_fn(int, int, bool) -> RenameQuestion,
    x: int,
)
    requires
        candidates.contains(x),
        forall|e: (int, int)| plan.contains(e) && e.0 == x ==> e.1 >= n,
    ensures
        questions_upto(plan, n, candidates, target, eligible, question).1.contains(x),
    decreases n,
{
    if n > 0 {
        lemma_left_keeps(plan, (n - 1) as nat, candidates, target, eligible, question, x);
        let j = n - 1;
        let left = questions_upto(plan, (n - 1) as nat, candidates, target, eligible, question).1;
        if target(j) {
            match source_of(plan, j) {
                Some(c) => {
                    lemma_source_found(plan, j);
                    assert(c != x);
                    lemma_remove_keeps(left, c, x);
                },
                None => {},
            }
        }
    }
}

proof fn lemma_offer_yes(
    candidates: Seq<int>,
    c: int,
    j: int,
    eligible: spec_fn(int, int) -> bool,
    question: spec_fn(int, int, bool) -> RenameQuestion,
)
    requires
        candidates.contains(c),
        eligible(c, j),
    ensures
        offer(candidates, Some(c), j, eligible, question).contains(question(c, j, true)),
    decreases candidates.len(),
{
    let i = choose|i: int| 0 <= i < candidates.len() && candidates[i] == c;
    let c0 = candidates[0];
    if c0 == c {
        assert(offer(candidates, Some(c), j, eligible, question)[0] == question(c, j, true));
    } else {
        assert(candidates.drop_first()[i - 1] == c);
        lemma_offer_yes(candidates.drop_first(), c, j, eligible, question);
        let rest = offer(candidates.drop_first(), Some(c), j, eligible, question);
        let k = choose|k: int| 0 <= k < rest.len() && rest[k] == question(c, j, true);
        if eligible(c0, j) {
            assert((seq![question(c0, j, false)] + rest)[k + 1] == question(c, j, true));
        }
    }
}

/// A rename `(c, j)` of a plan, taken by a target that the questions reach,
/// shows among them as a question about `c` and `j` answered yes.
proof fn lemma_yes_asked(
    plan: Seq<(int, int)>,
    n: nat,
    candidates: Seq<int>,
    target: spec_fn(int) -> bool,
    eligible: spec_fn(int, int) -> bool,
    question: spec_fn(int, int, bool) -> RenameQuestion,
    c: int,
    j: int,
)
    requires
        plan.contains((c, j)),
        0 <= j < n,
        target(j),
        eligible(c, j),
        candidates.contains(c),
        forall|e: (int, int)| plan.contains(e) && (e.0 == c || e.1 == j) ==> e == (c, j),
    ensures
        questions_upto(plan, n, candidates, target, eligible, question).0.contains(question(c, j, true)),
    decreases n,
{
    let prev = questions_upto(plan, (n - 1) as nat, candidates, target, eligible, question);
    let now = questions_upto(plan, n, candidates, target, eligible, question);
    if j < n - 1 {
        lemma_yes_asked(plan, (n - 1) as nat, candidates, target, eligible, question, c, j);
        let k = choose|k: int| 0 <= k < prev.0.len() && prev.0[k] == question(c, j, true);
        if target(n - 1) {
            let more = offer(prev.1, source_of(plan, n - 1), n - 1, eligible, question);
            assert((prev.0 + more)[k] == question(c, j, true));
        }
    } else {
        lemma_left_keeps(plan, (n - 1) as nat, candidates, target, eligible, question, c);
        lemma_source_unique(plan, c, j);
        lemma_offer_yes(prev.1, c, j, eligible, question);
        let more = offer(prev.1, Some(c), j, eligible, question);
        let k = choose|k: int| 0 <= k < more.len() && more[k] == question(c, j, true);
        assert((prev.0 + more)[prev.0.len() + k] == question(c, j, true));
    }
}

proof fn lemma_columns_of_member(cols: Seq<(int, int, int)>, dj: int, e: (int, int))
    requires
        columns_of(cols, dj).contains(e),
    ensures
        exists|k: int| 0 <= k < cols.len() && cols[k] == (dj, e.0, e.1),
    decreases cols.len(),
{
    let rest = columns_of(cols.drop_last(), dj);
    let i = choose|i: int| 0 <= i < columns_of(cols, dj).len() && columns_of(cols, dj)[i] == e;
    if i < rest.len() {
        assert(rest[i] == e);
        lemma_columns_of_member(cols.drop_last(), dj, e);
        let k = choose|k: int| 0 <= k < cols.drop_last().len() && cols.drop_last()[k] == (dj, e.0, e.1);
        assert(cols[k] == cols.drop_last()[k]);
    } else {
        assert(cols[cols.len() - 1] == (dj, e.0, e.1));
    }
}

proof fn lemma_columns_of_has(cols: Seq<(int, int, int)>, k: int)
    requires
        0 <= k < cols.len(),
    ensures
        columns_of(cols, cols[k].0).contains((cols[k].1, cols[k].2)),
    decreases cols.len(),
{
    let dj = cols[k].0;
    let rest = columns_of(cols.drop_last(), dj);
    if k == cols.len() - 1 {
        assert(columns_of(cols, dj)[rest.len() as int] == (cols[k].1, cols[k].2));
    } else {
        assert(cols.drop_last()[k] == cols[k]);
        lemma_columns_of_has(cols.drop_last(), k);
        let i = choose|i: int| 0 <= i < rest.len() && rest[i] == (cols[k].1, cols[k].2);
        assert(columns_of(cols, dj)[i] == (cols[k].1, cols[k].2));
    }
}

proof fn lemma_surviving_has(b: DatabaseSchemaModel, d: DatabaseSchemaModel, cols: Seq<(int, int, int)>, n: nat, m: int, q: RenameQuestion)
    requires
        0 <= m < n,
        is_surviving(b, d, m),
        column_questions(lookup(b.tables, table_key(d.tables[m].1))->0, d.tables[m].1, columns_of(cols, m)).contains(q),
    ensures
        surviving_table_questions(b, d, cols, n).contains(q),
    decreases n,
{
    let rest = surviving_table_questions(b, d, cols, (n - 1) as nat);
    let here = column_questions(lookup(b.tables, table_key(d.tables[m].1))->0, d.tables[m].1, columns_of(cols, m));
    if m < n - 1 {
        lemma_surviving_has(b, d, cols, (n - 1) as nat, m, q);
        let i = choose|i: int| 0 <= i < rest.len() && rest[i] == q;
        assert(surviving_table_questions(b, d, cols, n)[i] == q);
    } else {
        let i = choose|i: int| 0 <= i < here.len() && here[i] == q;
        assert(surviving_table_questions(b, d, cols, n)[rest.len() + i] == q);
    }
}

/// No rename is made without a yes: when every question the resolver was
/// asked under a valid plan was answered no, the plan renames nothing.
pub proof fn law_renames_need_a_yes(b: DatabaseSchemaModel, d: DatabaseSchemaModel, p: RenamePlanModel)
    requires
        valid_plan(b, d, p),
        forall|i: int| 0 <= i < rename_questions(b, d, p).len() ==> !said_yes(#[trigger] rename_questions(b, d, p)[i]),
    ensures
        p == no_renames(),
{
    let qs = rename_questions(b, d, p);
    let tq = table_questions(b, d, p.tables);
    let rq = renamed_table_questions(b, d, p.tables, p.columns, p.tables.len());
    let sq = surviving_table_questions(b, d, p.columns, d.tables.len());
    assert(qs == tq + rq + sq);
    if p.tables.len() > 0 {
        let (c, j) = p.tables[0];
        assert(p.tables.contains((c, j)));
        assert(is_dropped(b, d, c) && is_created(b, d, j));
        lemma_kept_contains(b.tables.len(), keep_dropped(b, d), c);
        assert forall|e: (int, int)| p.tables.contains(e) && (e.0 == c || e.1 == j) implies e == (c, j) by {
            let k = choose|k: int| 0 <= k < p.tables.len() && p.tables[k] == e;
            if k > 0 {
                assert(p.tables[0].0 != p.tables[k].0 && p.tables[0].1 < p.tables[k].1);
            }
        }
        lemma_yes_asked(p.tables, d.tables.len(), kept_positions(b.tables.len(), keep_dropped(b, d)), keep_created(b, d),
            same_schema(b, d), table_question(b, d), c, j);
        let q = table_question(b, d)(c, j, true);
        let k = choose|k: int| 0 <= k < tq.len() && tq[k] == q;
        assert(qs[k] == q);
        assert(said_yes(qs[k]));
        assert(false);
    }
    if p.columns.len() > 0 {
        let (dj, o, j) = p.columns[0];
        assert(valid_column_rename(b, d, p, p.columns[0]));
        lemma_find_first_some(p.tables, renamed_into(dj));
        assert(rename_source(p, dj) is None);
        assert(is_surviving(b, d, dj));
        let old = lookup(b.tables, table_key(d.tables[dj].1))->0;
        let new = d.tables[dj].1;
        let plan = columns_of(p.columns, dj);
        lemma_columns_of_has(p.columns, 0);
        lemma_kept_contains(old.columns.len(), keep_removed(old, new), o);
        assert forall|e: (int, int)| plan.contains(e) && (e.0 == o || e.1 == j) implies e == (o, j) by {
            lemma_columns_of_member(p.columns, dj, e);
            let k = choose|k: int| 0 <= k < p.columns.len() && p.columns[k] == (dj, e.0, e.1);
            if k > 0 {
                assert(p.columns[0].1 != p.columns[k].1 && p.columns[0].2 != p.columns[k].2);
            }
        }
        lemma_yes_asked(plan, new.columns.len(), kept_positions(old.columns.len(), keep_removed(old, new)),
            keep_added(old, new), same_type(old, new), column_question(old, new), o, j);
        let q = column_question(old, new)(o, j, true);
        lemma_surviving_has(b, d, p.columns, d.tables.len(), dj, q);
        let k = choose|k: int| 0 <= k < sq.len() && sq[k] == q;
        assert(qs[tq.len() + rq.len() + k] == q);
        assert(said_yes(qs[tq.len() + rq.len() + k]));
        assert(false);
    }
    assert(p.tables =~= no_renames().tables);
    assert(p.columns =~= no_renames().columns);
}

} // verus!
