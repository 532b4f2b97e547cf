//! What a recorded migration history admits: applied migrations must be known
//! and form a prefix of the local ones.

use vstd::prelude::*;

use crate::schema::diff::contains_string;
use crate::schema::model::strings_view;
use crate::text::{join, join_strings, owned};

verus! {

/// Why a database's migration history is refused.
#[derive(Debug)]
pub enum HistoryError {
    /// Applied migrations the repository does not have, in the order given.
    UnknownApplied(Vec<String>),
    /// An applied migration follows one that is not applied.
    Gap,
}

/// Applied migrations absent from `stems`, in the order given.
pub open spec fn unknown_applied(stems: Seq<Seq<char>>, applied: Seq<Seq<char>>) -> Seq<Seq<char>>
    decreases applied.len(),
{
    if applied.len() == 0 {
        seq![]
    } else {
        unknown_applied(stems, applied.drop_last())
            + if stems.contains(applied.last()) { seq![] } else { seq![applied.last()] }
    }
}

/// How many leading stems are applied.
pub open spec fn applied_prefix(stems: Seq<Seq<char>>, applied: Seq<Seq<char>>) -> nat
    decreases stems.len(),
{
    if stems.len() == 0 || !applied.contains(stems[0]) {
        0
    } else {
        1 + applied_prefix(stems.drop_first(), applied)
    }
}

/// Some stem after the applied prefix is applied too.
pub open spec fn has_gap(stems: Seq<Seq<char>>, applied: Seq<Seq<char>>) -> bool {
    exists|i: int| applied_prefix(stems, applied) <= i < stems.len() && applied.contains(#[trigger] stems[i])
}

pub open spec fn history_check(stems: Seq<Seq<char>>, applied: Seq<Seq<char>>) -> Result<nat, Seq<Seq<char>>> {
    if unknown_applied(stems, applied).len() > 0 {
        Err(unknown_applied(stems, applied))
    } else if has_gap(stems, applied) {
        Err(seq![])
    } else {
        Ok(applied_prefix(stems, applied))
    }
}

proof fn lemma_applied_prefix(stems: Seq<Seq<char>>, applied: Seq<Seq<char>>, k: int)
    requires
        0 <= k <= stems.len(),
        forall|j: int| 0 <= j < k ==> applied.contains(#[trigger] stems[j]),
        k == stems.len() || !applied.contains(stems[k]),
    ensures
        applied_prefix(stems, applied) == k,
    decreases k,
{
    if k > 0 {
        assert forall|j: int| 0 <= j < k - 1 implies applied.contains(#[trigger] stems.drop_first()[j]) by {
            assert(stems.drop_first()[j] == stems[j + 1]);
        }
        if k < stems.len() {
            assert(stems.drop_first()[k - 1] == stems[k]);
        }
        lemma_applied_prefix(stems.drop_first(), applied, k - 1);
    }
}

/// Checks a recorded history against the local stems: every applied
/// migration must exist locally, and the applied ones must be a prefix.
/// Returns how many are applied.
#[verifier::loop_isolation(false)]
pub fn check_history(stems: &Vec<String>, applied: &Vec<String>) -> (r: Result<usize, HistoryError>)
    ensures
        match r {
            Ok(n) => history_check(strings_view(stems@), strings_view(applied@)) == Ok::<nat, Seq<Seq<char>>>(n as nat),
            Err(HistoryError::UnknownApplied(u)) => history_check(strings_view(stems@), strings_view(applied@))
                == Err::<nat, Seq<Seq<char>>>(strings_view(u@)) && u@.len() > 0,
            Err(HistoryError::Gap) => history_check(strings_view(stems@), strings_view(applied@))
                == Err::<nat, Seq<Seq<char>>>(Seq::empty()),
        },
{
    let ghost ss = strings_view(stems@);
    let ghost aa = strings_view(applied@);
    let mut unknown: Vec<String> = Vec::new();
    let mut i: usize = 0;
    while i < applied.len()
        invariant
            i <= applied.len(),
            ss == strings_view(stems@),
            aa == strings_view(applied@),
            strings_view(unknown@) == unknown_applied(ss, aa.take(i as int)),
        decreases applied.len() - i,
    {
        let ghost before = strings_view(unknown@);
        assert(aa.take(i + 1).drop_last() =~= aa.take(i as int));
        assert(aa.take(i + 1).last() == applied@[i as int]@);
        if !contains_string(stems, applied[i].as_str()) {
            unknown.push(applied[i].clone());
            assert(strings_view(unknown@) =~= before.push(aa[i as int]));
        }
        assert(strings_view(unknown@) =~= unknown_applied(ss, aa.take(i + 1)));
        i = i + 1;
    }
    assert(aa.take(applied.len() as int) =~= aa);
    if unknown.len() > 0 {
        return Err(HistoryError::UnknownApplied(unknown));
    }
    let mut count: usize = 0;
    while count < stems.len() && contains_string(applied, stems[count].as_str())
        invariant
            count <= stems.len(),
            ss == strings_view(stems@),
            aa == strings_view(applied@),
            forall|j: int| 0 <= j < count ==> aa.contains(#[trigger] ss[j]),
        decreases stems.len() - count,
    {
        count = count + 1;
    }
    proof { lemma_applied_prefix(ss, aa, count as int); }
    let mut k: usize = count;
    while k < stems.len()
        invariant
            count <= k <= stems.len(),
            ss == strings_view(stems@),
            aa == strings_view(applied@),
            applied_prefix(ss, aa) == count,
            forall|j: int| count <= j < k ==> !aa.contains(#[trigger] ss[j]),
        decreases stems.len() - k,
    {
        if contains_string(applied, stems[k].as_str()) {
            assert(ss[k as int] == stems@[k as int]@);
            assert(aa.contains(ss[k as int]));
            assert(has_gap(ss, aa));
            return Err(HistoryError::Gap);
        }
        k = k + 1;
    }
    Ok(count)
}

proof fn lemma_prefix_facts(stems: Seq<Seq<char>>, applied: Seq<Seq<char>>)
    ensures
        applied_prefix(stems, applied) <= stems.len(),
        forall|j: int| 0 <= j < applied_prefix(stems, applied) ==> applied.contains(#[trigger] stems[j]),
        applied_prefix(stems, applied) < stems.len() ==> !applied.contains(stems[applied_prefix(stems, applied) as int]),
    decreases stems.len(),
{
    if stems.len() > 0 && applied.contains(stems[0]) {
        let rest = stems.drop_first();
        lemma_prefix_facts(rest, applied);
        assert forall|j: int| 0 <= j < applied_prefix(stems, applied) implies applied.contains(#[trigger] stems[j]) by {
            if j > 0 {
                assert(stems[j] == rest[j - 1]);
            }
        }
        if applied_prefix(stems, applied) < stems.len() {
            assert(stems[applied_prefix(stems, applied) as int] == rest[applied_prefix(rest, applied) as int]);
        }
    }
}

proof fn lemma_no_unknown(stems: Seq<Seq<char>>, applied: Seq<Seq<char>>)
    ensures
        (unknown_applied(stems, applied).len() == 0) == (forall|j: int| 0 <= j < applied.len() ==> stems.contains(#[trigger] applied[j])),
    decreases applied.len(),
{
    if applied.len() > 0 {
        let rest = applied.drop_last();
        lemma_no_unknown(stems, rest);
        if forall|j: int| 0 <= j < applied.len() ==> stems.contains(#[trigger] applied[j]) {
            assert forall|j: int| 0 <= j < rest.len() implies stems.contains(#[trigger] rest[j]) by {
                assert(rest[j] == applied[j]);
            }
            assert(stems.contains(applied[applied.len() - 1]));
        } else if unknown_applied(stems, applied).len() == 0 {
            assert forall|j: int| 0 <= j < applied.len() implies stems.contains(#[trigger] applied[j]) by {
                if j < rest.len() {
                    assert(rest[j] == applied[j]);
                }
            }
        }
    }
}

/// For distinct local stems, a recorded history is admitted exactly when
/// the applied migrations are the first `n` local ones, and then the check
/// answers `n`.
pub proof fn law_history_admits_exactly_prefixes(stems: Seq<Seq<char>>, applied: Seq<Seq<char>>, n: nat)
    requires
        forall|i: int, j: int| 0 <= i < j < stems.len() ==> stems[i] != stems[j],
    ensures
        (history_check(stems, applied) == Ok::<nat, Seq<Seq<char>>>(n)) == (
            n <= stems.len()
            && (forall|i: int| 0 <= i < n ==> applied.contains(#[trigger] stems[i]))
            && (forall|j: int| 0 <= j < applied.len() ==> stems.take(n as int).contains(#[trigger] applied[j]))
        ),
{
    lemma_prefix_facts(stems, applied);
    lemma_no_unknown(stems, applied);
    let p = applied_prefix(stems, applied);
    if history_check(stems, applied) == Ok::<nat, Seq<Seq<char>>>(n) {
        assert(n == p);
        assert forall|j: int| 0 <= j < applied.len() implies stems.take(n as int).contains(#[trigger] applied[j]) by {
            assert(stems.contains(applied[j]));
            let i = choose|i: int| 0 <= i < stems.len() && stems[i] == applied[j];
            if i >= n {
                assert(applied.contains(stems[i]));
                assert(has_gap(stems, applied));
            }
            assert(stems.take(n as int)[i] == applied[j]);
        }
    }
    if n <= stems.len()
        && (forall|i: int| 0 <= i < n ==> applied.contains(#[trigger] stems[i]))
        && (forall|j: int| 0 <= j < applied.len() ==> stems.take(n as int).contains(#[trigger] applied[j])) {
        assert forall|j: int| 0 <= j < applied.len() implies stems.contains(#[trigger] applied[j]) by {
            assert(stems.take(n as int).contains(applied[j]));
            let i = choose|i: int| 0 <= i < n && stems.take(n as int)[i] == applied[j];
            assert(stems[i] == applied[j]);
        }
        assert forall|k: int| n <= k < stems.len() implies !applied.contains(#[trigger] stems[k]) by {
            if applied.contains(stems[k]) {
                let j = choose|j: int| 0 <= j < applied.len() && applied[j] == stems[k];
                assert(stems.take(n as int).contains(applied[j]));
                let i = choose|i: int| 0 <= i < n && stems.take(n as int)[i] == applied[j];
                assert(stems[i] == stems[k]);
            }
        }
        lemma_applied_prefix(stems, applied, n as int);
        if has_gap(stems, applied) {
            let k = choose|k: int| applied_prefix(stems, applied) <= k < stems.len() && applied.contains(#[trigger] stems[k]);
        }
    }
}

impl HistoryError {
    /// The message the history check fails with.
    pub fn message(&self) -> (text: String)
        ensures
            match self {
                HistoryError::UnknownApplied(u) => text@ == "database contains migration(s) absent from the repository: "@
                    + join(strings_view(u@), ", "@),
                HistoryError::Gap => text@ == "database migration history contains a gap; applied migrations must be a prefix"@,
            },
    {
        match self {
            HistoryError::UnknownApplied(u) => {
                let mut text = owned("database contains migration(s) absent from the repository: ");
                let joined = join_strings(u, ", ");
                assert(u@.map_values(|p: String| p@) =~= strings_view(u@));
                text.append(joined.as_str());
                text
            },
            HistoryError::Gap => owned("database migration history contains a gap; applied migrations must be a prefix"),
        }
    }
}

/// Local stems not yet applied, in order.
pub open spec fn pending(stems: Seq<Seq<char>>, applied: Seq<Seq<char>>) -> Seq<Seq<char>>
    decreases stems.len(),
{
    if stems.len() == 0 {
        seq![]
    } else {
        pending(stems.drop_last(), applied) + if applied.contains(stems.last()) { seq![] } else { seq![stems.last()] }
    }
}

/// The migrations `apply` runs, in order: those not recorded as applied.
#[verifier::loop_isolation(false)]
pub fn pending_migrations(stems: &Vec<String>, applied: &Vec<String>) -> (todo: Vec<String>)
    ensures
        strings_view(todo@) == pending(strings_view(stems@), strings_view(applied@)),
{
    let ghost ss = strings_view(stems@);
    let mut todo: Vec<String> = Vec::new();
    let mut i: usize = 0;
    while i < stems.len()
        invariant
            i <= stems.len(),
            ss == strings_view(stems@),
            strings_view(todo@) == pending(ss.take(i as int), strings_view(applied@)),
        decreases stems.len() - i,
    {
        let ghost before = strings_view(todo@);
        assert(ss.take(i + 1).drop_last() =~= ss.take(i as int));
        assert(ss.take(i + 1).last() == stems@[i as int]@);
        if !contains_string(applied, stems[i].as_str()) {
            todo.push(stems[i].clone());
            assert(strings_view(todo@) =~= before.push(ss[i as int]));
        }
        assert(strings_view(todo@) =~= pending(ss.take(i + 1), strings_view(applied@)));
        i = i + 1;
    }
    assert(ss.take(stems.len() as int) =~= ss);
    todo
}

/// How a local migration stands against the database's record.
#[derive(Debug, Clone, Copy, PartialEq, Eq, Structural)]
pub enum MigrationState {
    /// Recorded as applied.
    Applied,
    /// Not recorded: `apply` would run it.
    Pending,
    /// No record could be read.
    Unknown,
}

/// The state of a stem against the applied list, if one was read.
pub open spec fn state_of(stem: Seq<char>, applied: Option<Seq<Seq<char>>>) -> MigrationState {
    match applied {
        Some(a) => if a.contains(stem) { MigrationState::Applied } else { MigrationState::Pending },
        None => MigrationState::Unknown,
    }
}

/// The state of each local stem, in order, for a status listing: applied
/// or pending against the applied list, unknown when none was read.
#[verifier::loop_isolation(false)]
pub fn migration_states(stems: &Vec<String>, applied: Option<&Vec<String>>) -> (states: Vec<MigrationState>)
    ensures
        states@.len() == stems@.len(),
        forall|i: int| 0 <= i < stems@.len() ==> #[trigger] states@[i] == state_of(
            stems@[i]@,
            match applied { Some(a) => Some(strings_view(a@)), None => None },
        ),
{
    let ghost record = match applied { Some(a) => Some(strings_view(a@)), None => None };
    let mut states: Vec<MigrationState> = Vec::new();
    let mut i: usize = 0;
    while i < stems.len()
        invariant
            i <= stems.len(),
            states@.len() == i,
            forall|k: int| 0 <= k < i ==> #[trigger] states@[k] == state_of(stems@[k]@, record),
        decreases stems.len() - i,
    {
        let state = match applied {
            Some(a) => if contains_string(a, stems[i].as_str()) { MigrationState::Applied } else { MigrationState::Pending },
            None => MigrationState::Unknown,
        };
        states.push(state);
        i = i + 1;
    }
    states
}

/// The stems a status listing marks pending are exactly those `apply`
/// would run, in the same order.
pub proof fn law_status_pending_is_apply(stems: Seq<Seq<char>>, applied: Seq<Seq<char>>)
    ensures
        pending(stems, applied) == stems.filter(|s: Seq<char>| state_of(s, Some(applied)) == MigrationState::Pending),
    decreases stems.len(),
{
    let f = |s: Seq<char>| state_of(s, Some(applied)) == MigrationState::Pending;
    reveal(Seq::filter);
    if stems.len() > 0 {
        law_status_pending_is_apply(stems.drop_last(), applied);
    }
}

proof fn lemma_pending_suffix(stems: Seq<Seq<char>>, applied: Seq<Seq<char>>, n: int)
    requires
        0 <= n <= stems.len(),
        forall|i: int| 0 <= i < n ==> applied.contains(#[trigger] stems[i]),
        forall|i: int| n <= i < stems.len() ==> !applied.contains(#[trigger] stems[i]),
    ensures
        pending(stems, applied) == stems.skip(n),
    decreases stems.len(),
{
    if stems.len() > 0 {
        let rest = stems.drop_last();
        if stems.len() > n {
            assert forall|i: int| n <= i < rest.len() implies !applied.contains(#[trigger] rest[i]) by {
                assert(rest[i] == stems[i]);
            }
            assert forall|i: int| 0 <= i < n implies applied.contains(#[trigger] rest[i]) by {
                assert(rest[i] == stems[i]);
            }
            lemma_pending_suffix(rest, applied, n);
            assert(!applied.contains(stems[stems.len() - 1]));
            assert(stems.skip(n) =~= rest.skip(n).push(stems.last()));
        } else {
            assert forall|i: int| 0 <= i < n - 1 implies applied.contains(#[trigger] rest[i]) by {
                assert(rest[i] == stems[i]);
            }
            lemma_pending_suffix(rest, applied, n - 1);
            assert(applied.contains(stems[n - 1]));
            assert(stems.skip(n) =~= Seq::<Seq<char>>::empty());
            assert(rest.skip(n - 1) =~= Seq::<Seq<char>>::empty());
        }
    } else {
        assert(stems.skip(n) =~= Seq::<Seq<char>>::empty());
    }
}

/// Once a history is admitted with `n` applied, the pending migrations are
/// exactly the local ones after the first `n`, in order.
pub proof fn law_pending_follow_the_applied_prefix(stems: Seq<Seq<char>>, applied: Seq<Seq<char>>, n: nat)
    requires
        history_check(stems, applied) == Ok::<nat, Seq<Seq<char>>>(n),
    ensures
        pending(stems, applied) == stems.skip(n as int),
{
    lemma_prefix_facts(stems, applied);
    assert forall|i: int| n <= i < stems.len() implies !applied.contains(#[trigger] stems[i]) by {
        if applied.contains(stems[i]) {
            assert(has_gap(stems, applied));
        }
    }
    lemma_pending_suffix(stems, applied, n as int);
}

/// What `migrate diff` does once it has the reconciling changes.
#[derive(Debug)]
pub enum DriftAction {
    /// The database matches the declared schema.
    InSync,
    /// A check run found drift and nothing is to be written: fail.
    Refuse,
    /// Print the reconciling SQL.
    Print,
    /// Write the reconciling changes as a migration of this name.
    Write(String),
}

pub fn drift_action(no_changes: bool, check: bool, write: Option<String>) -> (action: DriftAction)
    ensures
        no_changes ==> action is InSync,
        !no_changes && check && write is None ==> action is Refuse,
        !no_changes && !check && write is None ==> action is Print,
        !no_changes && write is Some ==> action == DriftAction::Write(write->0),
{
    if no_changes {
        return DriftAction::InSync;
    }
    match write {
        None => if check { DriftAction::Refuse } else { DriftAction::Print },
        Some(name) => DriftAction::Write(name),
    }
}

} // verus!
