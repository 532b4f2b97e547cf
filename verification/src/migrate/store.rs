//! Migration file names: `NNNN_name.up.sql`, `NNNN_name.down.sql` and the
//! snapshot `meta/NNNN.json`, ordered by their version number.

use vstd::prelude::*;

use crate::schema::model::strings_view;
use crate::text::{
    all_digits, ascii_lower, char_is_ascii_alnum, char_position, char_to_ascii_lower, concat3, decimal,
    digits_value, find_char, is_ascii_alnum, is_digit, lemma_decimal_digits, lemma_zeros_prefix, owned, parse_u32,
    parse_u32_exec, push_char, push_padded4, str_eq, zero_padded,
};

verus! {

/// The part of a stem before its first underscore (all of it if none).
pub open spec fn version_prefix(stem: Seq<char>) -> Seq<char> {
    match char_position(stem, '_') {
        Some(i) => stem.take(i),
        None => stem,
    }
}

/// The version a stem starts with; 0 when its prefix is not a `u32`.
pub open spec fn stem_version(stem: Seq<char>) -> nat {
    match parse_u32(version_prefix(stem)) {
        Some(v) => v,
        None => 0,
    }
}

/// The version number a migration stem starts with, or 0.
pub fn version_of(stem: &str) -> (version: u32)
    ensures
        version == stem_version(stem@),
{
    let prefix = match find_char(stem, '_') {
        Some(i) => {
            proof {
                let w = choose|w: int| 0 <= w < stem@.len() && stem@[w] == '_' && forall|j: int| 0 <= j < w ==> stem@[j] != '_';
            }
            stem.substring_char(0, i)
        },
        None => stem,
    };
    proof {
        if let Some(i) = char_position(stem@, '_') {
            assert(prefix@ =~= stem@.take(i));
        }
    }
    match parse_u32_exec(prefix) {
        Some(v) => v,
        None => 0,
    }
}

pub open spec fn slug_char(c: char) -> char {
    if is_ascii_alnum(c) { ascii_lower(c) } else { '_' }
}

/// A migration name as it appears in a file name: ASCII letters and digits
/// lowercased, every other character an underscore.
pub open spec fn slug(name: Seq<char>) -> Seq<char> {
    name.map_values(|c: char| slug_char(c))
}

pub fn slugify(name: &str) -> (res: String)
    ensures
        res@ == slug(name@),
{
    let n = name.unicode_len();
    let mut res = String::new();
    let mut i: usize = 0;
    while i < n
        invariant
            i <= n,
            n == name@.len(),
            res@ == slug(name@).take(i as int),
        decreases n - i,
    {
        let c = name.get_char(i);
        let s = if char_is_ascii_alnum(c) { char_to_ascii_lower(c) } else { '_' };
        push_char(&mut res, s);
        assert(res@ =~= slug(name@).take(i + 1));
        i = i + 1;
    }
    assert(slug(name@).take(n as int) =~= slug(name@));
    res
}

/// `NNNN_slug`: the version padded to four digits, then the slug.
pub open spec fn stem_for(version: nat, name: Seq<char>) -> Seq<char> {
    zero_padded(version, 4) + "_"@ + slug(name)
}

pub fn stem_name(version: u32, name: &str) -> (stem: String)
    ensures
        stem@ == stem_for(version as nat, name@),
{
    let mut stem = String::new();
    push_padded4(&mut stem, version as u64);
    stem.append("_");
    stem.append(slugify(name).as_str());
    stem
}

pub open spec fn ends_with(s: Seq<char>, suffix: Seq<char>) -> bool {
    s.len() >= suffix.len() && s.skip(s.len() - suffix.len()) == suffix
}

/// The names among `names` that end with `suffix`, with the suffix cut
/// off, in the order given.
pub open spec fn suffix_stems(names: Seq<Seq<char>>, suffix: Seq<char>) -> Seq<Seq<char>>
    decreases names.len(),
{
    if names.len() == 0 {
        seq![]
    } else {
        let n = names.last();
        suffix_stems(names.drop_last(), suffix) + if ends_with(n, suffix) {
            seq![n.take(n.len() - suffix.len())]
        } else {
            seq![]
        }
    }
}

/// Where `x` goes in a list ordered by version: after every stem whose
/// version is not above its own, so equal versions keep their order.
pub open spec fn insert_by_version(sorted: Seq<Seq<char>>, x: Seq<char>) -> Seq<Seq<char>>
    decreases sorted.len(),
{
    if sorted.len() == 0 {
        seq![x]
    } else if stem_version(sorted.last()) <= stem_version(x) {
        sorted.push(x)
    } else {
        insert_by_version(sorted.drop_last(), x).push(sorted.last())
    }
}

/// A stable sort of `stems` by version.
pub open spec fn sort_by_version(stems: Seq<Seq<char>>) -> Seq<Seq<char>>
    decreases stems.len(),
{
    if stems.len() == 0 {
        seq![]
    } else {
        insert_by_version(sort_by_version(stems.drop_last()), stems.last())
    }
}

/// Every stem's version is at most the next one's.
pub open spec fn sorted_by_version(stems: Seq<Seq<char>>) -> bool {
    forall|i: int, j: int| 0 <= i < j < stems.len() ==> stem_version(#[trigger] stems[i]) <= stem_version(#[trigger] stems[j])
}

/// The stems of `stems` whose version is `v`, in their order there.
pub open spec fn with_version(stems: Seq<Seq<char>>, v: nat) -> Seq<Seq<char>>
    decreases stems.len(),
{
    if stems.len() == 0 {
        seq![]
    } else {
        with_version(stems.drop_last(), v) + if stem_version(stems.last()) == v { seq![stems.last()] } else { seq![] }
    }
}

proof fn lemma_insert_bounded(sorted: Seq<Seq<char>>, x: Seq<char>, b: nat)
    requires
        forall|i: int| 0 <= i < sorted.len() ==> stem_version(#[trigger] sorted[i]) <= b,
        stem_version(x) <= b,
    ensures
        forall|i: int| 0 <= i < insert_by_version(sorted, x).len() ==> stem_version(#[trigger] insert_by_version(sorted, x)[i]) <= b,
    decreases sorted.len(),
{
    if sorted.len() > 0 && stem_version(sorted.last()) > stem_version(x) {
        let rest = sorted.drop_last();
        assert forall|i: int| 0 <= i < rest.len() implies stem_version(#[trigger] rest[i]) <= b by {
            assert(rest[i] == sorted[i]);
        }
        lemma_insert_bounded(rest, x, b);
        let inner = insert_by_version(rest, x);
        assert forall|i: int| 0 <= i < inner.len() + 1 implies stem_version(#[trigger] inner.push(sorted.last())[i]) <= b by {
            if i < inner.len() {
                assert(inner.push(sorted.last())[i] == inner[i]);
            }
        }
    } else if sorted.len() > 0 {
        assert forall|i: int| 0 <= i < sorted.len() + 1 implies stem_version(#[trigger] sorted.push(x)[i]) <= b by {
            if i < sorted.len() {
                assert(sorted.push(x)[i] == sorted[i]);
            }
        }
    }
}

proof fn lemma_insert_by_version(sorted: Seq<Seq<char>>, x: Seq<char>, v: nat)
    requires
        sorted_by_version(sorted),
    ensures
        sorted_by_version(insert_by_version(sorted, x)),
        insert_by_version(sorted, x).to_multiset() == sorted.to_multiset().insert(x),
        with_version(insert_by_version(sorted, x), v) == with_version(sorted, v) + if stem_version(x) == v {
            seq![x]
        } else {
            seq![]
        },
    decreases sorted.len(),
{
    broadcast use vstd::seq_lib::group_to_multiset_ensures;

    let r = insert_by_version(sorted, x);
    if sorted.len() == 0 {
        assert(seq![x] =~= Seq::<Seq<char>>::empty().push(x));
        assert(r.drop_last() =~= Seq::<Seq<char>>::empty());
        assert(with_version(Seq::<Seq<char>>::empty(), v) == Seq::<Seq<char>>::empty());
        assert(with_version(sorted, v) == Seq::<Seq<char>>::empty());
        assert(with_version(r, v) =~= with_version(sorted, v) + if stem_version(x) == v { seq![x] } else { seq![] });
    } else if stem_version(sorted.last()) <= stem_version(x) {
        assert(r.drop_last() =~= sorted);
    } else {
        let rest = sorted.drop_last();
        let last = sorted.last();
        assert(sorted =~= rest.push(last));
        assert forall|i: int, j: int| 0 <= i < j < rest.len() implies stem_version(#[trigger] rest[i]) <= stem_version(#[trigger] rest[j]) by {
            assert(rest[i] == sorted[i] && rest[j] == sorted[j]);
        }
        lemma_insert_by_version(rest, x, v);
        let inner = insert_by_version(rest, x);
        assert(r.drop_last() =~= inner);
        assert forall|i: int| 0 <= i < rest.len() implies stem_version(#[trigger] rest[i]) <= stem_version(last) by {
            assert(rest[i] == sorted[i]);
        }
        lemma_insert_bounded(rest, x, stem_version(last));
        assert forall|i: int, j: int| 0 <= i < j < r.len() implies stem_version(#[trigger] r[i]) <= stem_version(#[trigger] r[j]) by {
            assert(r[i] == inner[i]);
            if j < inner.len() {
                assert(r[j] == inner[j]);
            }
        }
        let xs: Seq<Seq<char>> = if stem_version(x) == v { seq![x] } else { seq![] };
        let ls: Seq<Seq<char>> = if stem_version(last) == v { seq![last] } else { seq![] };
        assert(with_version(r, v) == with_version(rest, v) + xs + ls);
        assert(with_version(sorted, v) == with_version(rest, v) + ls);
        assert(xs + ls =~= ls + xs);
        assert(with_version(r, v) =~= with_version(sorted, v) + xs);
    }
}

/// Sorting migration stems by version puts them in version order, keeps
/// every stem (as many times as it came), and leaves stems of one version
/// in the order they came in.
pub proof fn law_stems_sorted_stably(stems: Seq<Seq<char>>, v: nat)
    ensures
        sorted_by_version(sort_by_version(stems)),
        sort_by_version(stems).to_multiset() == stems.to_multiset(),
        with_version(sort_by_version(stems), v) == with_version(stems, v),
    decreases stems.len(),
{
    broadcast use vstd::seq_lib::group_to_multiset_ensures;

    if stems.len() > 0 {
        law_stems_sorted_stably(stems.drop_last(), v);
        lemma_insert_by_version(sort_by_version(stems.drop_last()), stems.last(), v);
        assert(stems =~= stems.drop_last().push(stems.last()));
    }
}

fn insert_stem(sorted: &mut Vec<String>, x: String)
    ensures
        strings_view(final(sorted)@) == insert_by_version(strings_view(old(sorted)@), x@),
    decreases old(sorted)@.len(),
{
    if sorted.len() == 0 {
        sorted.push(x);
        assert(strings_view(sorted@) =~= seq![x@]);
        return;
    }
    let last = sorted.pop().unwrap();
    let ghost rest = sorted@;
    proof {
        assert(strings_view(old(sorted)@).drop_last() =~= strings_view(rest));
        assert(strings_view(old(sorted)@).last() == last@);
    }
    if version_of(last.as_str()) <= version_of(x.as_str()) {
        sorted.push(last);
        sorted.push(x);
        assert(strings_view(sorted@) =~= strings_view(old(sorted)@).push(x@));
    } else {
        let ghost lv = last@;
        insert_stem(sorted, x);
        sorted.push(last);
        assert(strings_view(sorted@) =~= insert_by_version(strings_view(rest), x@).push(lv));
    }
}

/// The stems of the names that end with `suffix`, stably sorted by version.
#[verifier::loop_isolation(false)]
pub fn stems_with_suffix(file_names: &Vec<String>, suffix: &str) -> (stems: Vec<String>)
    ensures
        strings_view(stems@) == sort_by_version(suffix_stems(strings_view(file_names@), suffix@)),
{
    let ghost names = strings_view(file_names@);
    let k = suffix.unicode_len();
    let mut found: Vec<String> = Vec::new();
    let mut i: usize = 0;
    while i < file_names.len()
        invariant
            i <= file_names.len(),
            names == strings_view(file_names@),
            k == suffix@.len(),
            strings_view(found@) == suffix_stems(names.take(i as int), suffix@),
        decreases file_names.len() - i,
    {
        let name = file_names[i].as_str();
        let n = name.unicode_len();
        let ghost before = strings_view(found@);
        assert(names.take(i + 1).drop_last() =~= names.take(i as int));
        assert(names.take(i + 1).last() == name@);
        if n >= k && str_eq(name.substring_char(n - k, n), suffix) {
            assert(name@.skip(n - k) =~= name@.subrange(n - k, n as int));
            let stem = owned(name.substring_char(0, n - k));
            let ghost sv = stem@;
            found.push(stem);
            assert(strings_view(found@) =~= before.push(sv));
            assert(sv =~= name@.take(n - k));
            assert(strings_view(found@) =~= suffix_stems(names.take(i + 1), suffix@));
        } else {
            assert(!ends_with(name@, suffix@)) by {
                if ends_with(name@, suffix@) {
                    assert(name@.skip(n - k) =~= name@.subrange(n - k, n as int));
                }
            }
            assert(strings_view(found@) =~= suffix_stems(names.take(i + 1), suffix@));
        }
        i = i + 1;
    }
    assert(names.take(file_names.len() as int) =~= names);
    let ghost unsorted = strings_view(found@);
    let mut sorted: Vec<String> = Vec::new();
    let mut j: usize = 0;
    while j < found.len()
        invariant
            j <= found.len(),
            unsorted == strings_view(found@),
            strings_view(sorted@) == sort_by_version(unsorted.take(j as int)),
        decreases found.len() - j,
    {
        let x = found[j].clone();
        insert_stem(&mut sorted, x);
        assert(unsorted.take(j + 1).drop_last() =~= unsorted.take(j as int));
        j = j + 1;
    }
    assert(unsorted.take(found.len() as int) =~= unsorted);
    sorted
}

/// The migration stems among the names of a directory's files: those of
/// the `.up.sql` files, stably sorted by version.
pub fn migration_stems(file_names: &Vec<String>) -> (stems: Vec<String>)
    ensures
        strings_view(stems@) == sort_by_version(suffix_stems(strings_view(file_names@), ".up.sql"@)),
{
    stems_with_suffix(file_names, ".up.sql")
}

/// The largest version among `stems` (0 for none).
pub open spec fn max_version(stems: Seq<Seq<char>>) -> nat
    decreases stems.len(),
{
    if stems.len() == 0 {
        0
    } else {
        let rest = max_version(stems.drop_last());
        let v = stem_version(stems.last());
        if v > rest { v } else { rest }
    }
}

/// The version the next migration gets: one past the largest present.
#[verifier::loop_isolation(false)]
pub fn next_version(stems: &Vec<String>) -> (version: u32)
    requires
        max_version(strings_view(stems@)) < u32::MAX,
    ensures
        version == max_version(strings_view(stems@)) + 1,
{
    let ghost ss = strings_view(stems@);
    let mut max: u32 = 0;
    let mut i: usize = 0;
    while i < stems.len()
        invariant
            i <= stems.len(),
            ss == strings_view(stems@),
            max == max_version(ss.take(i as int)),
        decreases stems.len() - i,
    {
        let v = version_of(stems[i].as_str());
        assert(ss.take(i + 1).drop_last() =~= ss.take(i as int));
        if v > max {
            max = v;
        }
        i = i + 1;
    }
    assert(ss.take(stems.len() as int) =~= ss);
    max + 1
}

/// The migrations directory, by path, and the names of the files in it.
pub struct MigrationStore {
    pub directory: String,
}

impl MigrationStore {
    pub fn new(directory: &str) -> (store: MigrationStore)
        ensures
            store.directory@ == directory@,
    {
        MigrationStore { directory: owned(directory) }
    }

    /// The most recent migration of an ordered stem list.
    pub fn tip(stems: &Vec<String>) -> (tip: Option<String>)
        ensures
            match tip {
                Some(t) => stems@.len() > 0 && t@ == stems@.last()@,
                None => stems@.len() == 0,
            },
    {
        if stems.len() == 0 {
            None
        } else {
            Some(stems[stems.len() - 1].clone())
        }
    }

    /// The up migration's file, inside the directory.
    pub fn up_path(&self, stem: &str) -> (path: String)
        ensures
            path@ == self.directory@ + "/"@ + stem@ + ".up.sql"@,
    {
        let mut path = concat3(self.directory.as_str(), "/", stem);
        path.append(".up.sql");
        path
    }

    /// The down migration's file, inside the directory.
    pub fn down_path(&self, stem: &str) -> (path: String)
        ensures
            path@ == self.directory@ + "/"@ + stem@ + ".down.sql"@,
    {
        let mut path = concat3(self.directory.as_str(), "/", stem);
        path.append(".down.sql");
        path
    }

    /// The snapshot of a version: `meta/NNNN.json`.
    pub fn snapshot_path(&self, version: u32) -> (path: String)
        ensures
            path@ == self.directory@ + "/meta/"@ + zero_padded(version as nat, 4) + ".json"@,
    {
        let mut path = concat3(self.directory.as_str(), "/meta/", "");
        proof { reveal_strlit(""); }
        push_padded4(&mut path, version as u64);
        path.append(".json");
        path
    }
}

/// A migration's version reads back from the stem it was named with.
pub proof fn law_version_of_stem(version: u32, name: Seq<char>)
    ensures
        stem_version(stem_for(version as nat, name)) == version,
{
    let v = version as nat;
    let p = zero_padded(v, 4);
    lemma_decimal_digits(v);
    let dec = decimal(v);
    if dec.len() < 4 {
        lemma_zeros_prefix((4 - dec.len()) as nat, dec);
    }
    assert(all_digits(p) && digits_value(p) == v && p.len() > 0);
    let stem = stem_for(v, name);
    assert(stem[p.len() as int] == '_') by {
        reveal_strlit("_");
    }
    assert forall|j: int| 0 <= j < p.len() implies stem[j] != '_' by {
        assert(stem[j] == p[j]);
        assert(is_digit(p[j]));
    }
    assert(char_position(stem, '_') == Some(p.len() as int)) by {
        let w = choose|w: int| 0 <= w < stem.len() && stem[w] == '_' && forall|j: int| 0 <= j < w ==> stem[j] != '_';
        assert(0 <= p.len() < stem.len() && stem[p.len() as int] == '_') by { reveal_strlit("_"); }
        if w < p.len() { assert(stem[w] != '_'); }
        if p.len() < w { assert(stem[p.len() as int] != '_'); }
    }
    assert(version_prefix(stem) =~= p);
    assert(p[0] != '+') by { assert(is_digit(p[0])); }
}

} // verus!
