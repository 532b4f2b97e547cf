//! An ordered map from names to values, iterated in key order: the keyed
//! collections of a [`crate::schema::DatabaseSchema`].

use vstd::prelude::*;

use crate::text::{seq_lt, str_eq, str_lt, lemma_seq_lt_irreflexive, lemma_seq_lt_total};

verus! {

/// The index of the first entry keyed `key` is `i`.
pub open spec fn is_first_key<T>(s: Seq<(Seq<char>, T)>, key: Seq<char>, i: int) -> bool {
    &&& 0 <= i < s.len()
    &&& s[i].0 == key
    &&& forall|j: int| 0 <= j < i ==> s[j].0 != key
}

/// The index of the first entry keyed `key`, if any.
pub open spec fn key_position<T>(s: Seq<(Seq<char>, T)>, key: Seq<char>) -> Option<int> {
    if exists|i: int| is_first_key(s, key, i) {
        Some(choose|i: int| is_first_key(s, key, i))
    } else {
        None
    }
}

/// The value stored under `key`, if any.
pub open spec fn lookup<T>(s: Seq<(Seq<char>, T)>, key: Seq<char>) -> Option<T> {
    match key_position(s, key) {
        Some(i) => Some(s[i].1),
        None => None,
    }
}

/// The keys of an entry sequence, in order.
pub open spec fn keys_of<T>(s: Seq<(Seq<char>, T)>) -> Seq<Seq<char>> {
    s.map_values(|e: (Seq<char>, T)| e.0)
}

/// Keys strictly increase, so each key occurs once.
pub open spec fn sorted_keys<T>(s: Seq<(Seq<char>, T)>) -> bool {
    forall|i: int, j: int| 0 <= i < j < s.len() ==> seq_lt(#[trigger] s[i].0, #[trigger] s[j].0)
}

/// Where an entry keyed `key` belongs: before the first key not below it.
pub open spec fn insert_position<T>(s: Seq<(Seq<char>, T)>, key: Seq<char>) -> nat
    decreases s.len(),
{
    if s.len() == 0 {
        0
    } else if !seq_lt(s[0].0, key) {
        0
    } else {
        1 + insert_position(s.drop_first(), key)
    }
}

/// The entries after storing `value` under `key`: an entry with that key is
/// replaced in place, otherwise the entry is inserted in key order.
pub open spec fn insert_entry<T>(s: Seq<(Seq<char>, T)>, key: Seq<char>, value: T) -> Seq<(Seq<char>, T)> {
    let p = insert_position(s, key) as int;
    if p < s.len() && s[p].0 == key {
        s.update(p, (key, value))
    } else {
        s.insert(p, (key, value))
    }
}

pub proof fn lemma_first_key<T>(s: Seq<(Seq<char>, T)>, key: Seq<char>, i: int)
    requires
        is_first_key(s, key, i),
    ensures
        key_position(s, key) == Some(i),
        lookup(s, key) == Some(s[i].1),
{
    let c = choose|c: int| is_first_key(s, key, c);
    assert(is_first_key(s, key, c));
    if c < i {
        assert(s[c].0 != key);
    } else if i < c {
        assert(s[i].0 != key);
    }
}

pub proof fn lemma_no_key<T>(s: Seq<(Seq<char>, T)>, key: Seq<char>)
    requires
        forall|j: int| 0 <= j < s.len() ==> s[j].0 != key,
    ensures
        key_position(s, key) is None,
        lookup(s, key) is None,
{
}

pub proof fn lemma_insert_position_bound<T>(s: Seq<(Seq<char>, T)>, key: Seq<char>)
    ensures
        insert_position(s, key) <= s.len(),
        forall|j: int| 0 <= j < insert_position(s, key) ==> seq_lt(s[j].0, key),
        insert_position(s, key) < s.len() ==> !seq_lt(s[insert_position(s, key) as int].0, key),
    decreases s.len(),
{
    if s.len() > 0 && seq_lt(s[0].0, key) {
        lemma_insert_position_bound(s.drop_first(), key);
        assert forall|j: int| 0 <= j < insert_position(s, key) implies seq_lt(s[j].0, key) by {
            if j > 0 {
                assert(s[j] == s.drop_first()[j - 1]);
            }
        }
    }
}

/// Storing under a key keeps the keys sorted.
pub proof fn lemma_insert_keeps_sorted<T>(s: Seq<(Seq<char>, T)>, key: Seq<char>, value: T)
    requires
        sorted_keys(s),
    ensures
        sorted_keys(insert_entry(s, key, value)),
        lookup(insert_entry(s, key, value), key) == Some(value),
{
    lemma_insert_position_bound(s, key);
    let p = insert_position(s, key) as int;
    let r = insert_entry(s, key, value);
    if p < s.len() && s[p].0 == key {
        assert forall|i: int, j: int| 0 <= i < j < r.len() implies seq_lt(#[trigger] r[i].0, #[trigger] r[j].0) by {
            assert(r[i].0 == s[i].0 && r[j].0 == s[j].0);
        }
        lemma_first_key(r, key, p);
    } else {
        assert forall|j: int| p <= j < s.len() implies seq_lt(key, #[trigger] s[j].0) by {
            lemma_seq_lt_total(s[p].0, key);
            if j > p {
                crate::text::lemma_seq_lt_transitive(key, s[p].0, s[j].0);
            }
        }
        assert forall|i: int, j: int| 0 <= i < j < r.len() implies seq_lt(#[trigger] r[i].0, #[trigger] r[j].0) by {
            if j < p {
            } else if j == p {
                assert(r[i].0 == s[i].0);
            } else if i < p {
                assert(r[i].0 == s[i].0 && r[j].0 == s[j - 1].0);
                if i < p {
                    crate::text::lemma_seq_lt_transitive(s[i].0, key, s[j - 1].0);
                }
            } else if i == p {
                assert(r[j].0 == s[j - 1].0);
            } else {
                assert(r[i].0 == s[i - 1].0 && r[j].0 == s[j - 1].0);
            }
        }
        assert forall|j: int| 0 <= j < p implies r[j].0 != key by {
            lemma_seq_lt_irreflexive(key);
        }
        lemma_first_key(r, key, p);
    }
}

/// Some entry is keyed `key`.
pub open spec fn has_key<T>(s: Seq<(Seq<char>, T)>, key: Seq<char>) -> bool {
    exists|i: int| 0 <= i < s.len() && #[trigger] s[i].0 == key
}

proof fn lemma_key_found_from<T>(s: Seq<(Seq<char>, T)>, key: Seq<char>, i: int)
    requires
        0 <= i < s.len(),
        s[i].0 == key,
    ensures
        key_position(s, key) is Some,
    decreases i,
{
    if exists|j: int| 0 <= j < i && s[j].0 == key {
        let j = choose|j: int| 0 <= j < i && s[j].0 == key;
        lemma_key_found_from(s, key, j);
    } else {
        assert(is_first_key(s, key, i));
    }
}

/// A lookup finds a value exactly when some entry has the key.
pub proof fn lemma_lookup_has_key<T>(s: Seq<(Seq<char>, T)>, key: Seq<char>)
    ensures
        (lookup(s, key) is Some) == has_key(s, key),
{
    if has_key(s, key) {
        let i = choose|i: int| 0 <= i < s.len() && #[trigger] s[i].0 == key;
        lemma_key_found_from(s, key, i);
    }
    if key_position(s, key) is Some {
        let p = key_position(s, key)->0;
        assert(is_first_key(s, key, p));
        assert(s[p].0 == key);
    }
}

/// Storing under `key` adds `key` to the keys and keeps the others.
pub proof fn lemma_insert_entry_keys<T>(s: Seq<(Seq<char>, T)>, key: Seq<char>, value: T, other: Seq<char>)
    ensures
        has_key(insert_entry(s, key, value), other) == (has_key(s, other) || other == key),
{
    lemma_insert_position_bound(s, key);
    let p = insert_position(s, key) as int;
    let r = insert_entry(s, key, value);
    if p < s.len() && s[p].0 == key {
        assert(r[p].0 == key);
        if has_key(s, other) {
            let j = choose|j: int| 0 <= j < s.len() && #[trigger] s[j].0 == other;
            assert(r[j].0 == other);
        }
        if has_key(r, other) {
            let j = choose|j: int| 0 <= j < r.len() && #[trigger] r[j].0 == other;
            assert(s[j].0 == other);
        }
    } else {
        assert(r[p].0 == key);
        if has_key(s, other) {
            let j = choose|j: int| 0 <= j < s.len() && #[trigger] s[j].0 == other;
            if j < p {
                assert(r[j].0 == other);
            } else {
                assert(r[j + 1].0 == other);
            }
        }
        if has_key(r, other) && other != key {
            let j = choose|j: int| 0 <= j < r.len() && #[trigger] r[j].0 == other;
            if j < p {
                assert(s[j].0 == other);
            } else {
                assert(j != p);
                assert(s[j - 1].0 == other);
            }
        }
    }
}

/// Storing under a key of a sorted map grows it by one exactly when the
/// key is new.
pub proof fn lemma_insert_entry_len<T>(s: Seq<(Seq<char>, T)>, key: Seq<char>, value: T)
    requires
        sorted_keys(s),
    ensures
        insert_entry(s, key, value).len() == s.len() + (if has_key(s, key) { 0int } else { 1int }),
{
    lemma_insert_position_bound(s, key);
    let p = insert_position(s, key) as int;
    if !(p < s.len() && s[p].0 == key) && has_key(s, key) {
        let j = choose|j: int| 0 <= j < s.len() && #[trigger] s[j].0 == key;
        if j < p {
            lemma_seq_lt_irreflexive(key);
        } else {
            assert(p < s.len());
            lemma_seq_lt_total(s[p].0, key);
            if j > p {
                assert(seq_lt(s[p].0, s[j].0));
                crate::text::lemma_seq_lt_transitive(key, s[p].0, s[j].0);
                lemma_seq_lt_irreflexive(key);
            }
        }
    }
}

/// Entries keyed by name, kept in ascending key order with each key once.
pub struct NamedMap<V: View> {
    entries: Vec<(String, V)>,
}

impl<V: View> View for NamedMap<V> {
    type V = Seq<(Seq<char>, V::V)>;

    closed spec fn view(&self) -> Seq<(Seq<char>, V::V)> {
        self.entries@.map_values(|e: (String, V)| (e.0@, e.1@))
    }
}

impl<V: View> NamedMap<V> {
    #[verifier::type_invariant]
    closed spec fn keys_ascend(self) -> bool {
        sorted_keys(self@)
    }

    /// A map's keys ascend, each once: call it to bring that fact about a
    /// map into a proof.
    pub fn establish_sorted_keys(&self)
        ensures
            sorted_keys(self@),
    {
        proof {
            use_type_invariant(self);
        }
    }

    /// An empty map.
    pub fn new() -> (map: Self)
        ensures
            map@ == Seq::<(Seq<char>, V::V)>::empty(),
    {
        let map = NamedMap { entries: Vec::new() };
        assert(map@ =~= Seq::<(Seq<char>, V::V)>::empty());
        map
    }

    pub fn len(&self) -> (n: usize)
        ensures
            n == self@.len(),
    {
        self.entries.len()
    }

    pub fn is_empty(&self) -> (b: bool)
        ensures
            b == (self@.len() == 0),
    {
        self.entries.len() == 0
    }

    /// The key of the `i`-th entry in key order.
    pub fn key_at(&self, i: usize) -> (key: &String)
        requires
            i < self@.len(),
        ensures
            key@ == self@[i as int].0,
    {
        &self.entries[i].0
    }

    /// The value of the `i`-th entry in key order.
    pub fn value_at(&self, i: usize) -> (value: &V)
        requires
            i < self@.len(),
        ensures
            value@ == self@[i as int].1,
    {
        &self.entries[i].1
    }

    /// The value stored under `key`.
    pub fn get(&self, key: &str) -> (value: Option<&V>)
        ensures
            match value {
                Some(v) => lookup(self@, key@) == Some(v@),
                None => lookup(self@, key@) is None,
            },
    {
        let mut i: usize = 0;
        while i < self.entries.len()
            invariant
                i <= self@.len(),
                self@.len() == self.entries@.len(),
                forall|j: int| 0 <= j < i ==> self@[j].0 != key@,
            decreases self.entries.len() - i,
        {
            if str_eq(self.entries[i].0.as_str(), key) {
                proof { lemma_first_key(self@, key@, i as int); }
                return Some(&self.entries[i].1);
            }
            i = i + 1;
        }
        proof { lemma_no_key(self@, key@); }
        None
    }

    /// The position of the entry stored under `key`.
    pub fn position(&self, key: &str) -> (found: Option<usize>)
        ensures
            match found {
                Some(i) => key_position(self@, key@) == Some(i as int) && i < self@.len(),
                None => key_position(self@, key@) is None,
            },
    {
        let mut i: usize = 0;
        while i < self.entries.len()
            invariant
                i <= self@.len(),
                self@.len() == self.entries@.len(),
                forall|j: int| 0 <= j < i ==> self@[j].0 != key@,
            decreases self.entries.len() - i,
        {
            if str_eq(self.entries[i].0.as_str(), key) {
                proof { lemma_first_key(self@, key@, i as int); }
                return Some(i);
            }
            i = i + 1;
        }
        proof { lemma_no_key(self@, key@); }
        None
    }

    /// Replaces the value of the `i`-th entry, keeping its key.
    pub fn set_value(&mut self, i: usize, value: V)
        requires
            i < old(self)@.len(),
        ensures
            final(self)@ == old(self)@.update(i as int, (old(self)@[i as int].0, value@)),
    {
        proof { use_type_invariant(&*self); }
        let ghost s = self@;
        let ghost vv = value@;
        let mut entries = Vec::new();
        std::mem::swap(&mut entries, &mut self.entries);
        assert(entries@.map_values(|e: (String, V)| (e.0@, e.1@)) == s);
        let key = entries[i].0.clone();
        entries.set(i, (key, value));
        assert(entries@.map_values(|e: (String, V)| (e.0@, e.1@)) =~= s.update(i as int, (s[i as int].0, vv)));
        assert forall|a: int, b: int| 0 <= a < b < s.len() implies seq_lt(#[trigger] s.update(i as int, (s[i as int].0, vv))[a].0, #[trigger] s.update(i as int, (s[i as int].0, vv))[b].0) by {
            assert(s[a].0 == s.update(i as int, (s[i as int].0, vv))[a].0);
            assert(s[b].0 == s.update(i as int, (s[i as int].0, vv))[b].0);
        }
        self.entries = entries;
    }

    /// Whether an entry is stored under `key`.
    pub fn contains_key(&self, key: &str) -> (found: bool)
        ensures
            found == (lookup(self@, key@) is Some),
    {
        match self.get(key) {
            Some(_) => true,
            None => false,
        }
    }

    /// Stores `value` under `key`, replacing any value already there.
    pub fn insert(&mut self, key: String, value: V)
        ensures
            final(self)@ == insert_entry(old(self)@, key@, value@),
    {
        proof { use_type_invariant(&*self); }
        let ghost s = self@;
        let mut i: usize = 0;
        assert(s.skip(0) =~= s);
        while i < self.entries.len()
            invariant
                s == self@,
                i <= self@.len(),
                self@.len() == self.entries@.len(),
                insert_position(s, key@) == i + insert_position(s.skip(i as int), key@),
            ensures
                i <= self@.len(),
                s == self@,
                insert_position(s, key@) == i + insert_position(s.skip(i as int), key@),
                i == s.len() || !seq_lt(s[i as int].0, key@),
            decreases self.entries.len() - i,
        {
            if !str_lt(self.entries[i].0.as_str(), key.as_str()) {
                break;
            }
            assert(s.skip(i as int).drop_first() =~= s.skip(i + 1));
            i = i + 1;
        }
        proof {
            if i < s.len() {
                assert(s.skip(i as int)[0] == s[i as int]);
            } else {
                assert(s.skip(i as int).len() == 0);
            }
            assert(insert_position(s, key@) == i);
        }
        let ghost kv = key@;
        let ghost vv = value@;
        proof { lemma_insert_keeps_sorted(s, kv, vv); }
        if i < self.entries.len() && str_eq(self.entries[i].0.as_str(), key.as_str()) {
            let mut entries = Vec::new();
            std::mem::swap(&mut entries, &mut self.entries);
            assert(entries@.map_values(|e: (String, V)| (e.0@, e.1@)) == s);
            entries.set(i, (key, value));
            assert(entries@.map_values(|e: (String, V)| (e.0@, e.1@)) =~= insert_entry(s, kv, vv));
            self.entries = entries;
        } else {
            let mut entries = Vec::new();
            std::mem::swap(&mut entries, &mut self.entries);
            assert(entries@.map_values(|e: (String, V)| (e.0@, e.1@)) == s);
            entries.insert(i, (key, value));
            assert(entries@.map_values(|e: (String, V)| (e.0@, e.1@)) =~= insert_entry(s, kv, vv));
            self.entries = entries;
        }
    }
}

impl<V: View> Default for NamedMap<V> {
    fn default() -> (map: Self)
        ensures
            map@ == Seq::<(Seq<char>, V::V)>::empty(),
    {
        NamedMap::new()
    }
}

} // verus!
