//! The language-neutral model of request validation rules, and the backend
//! trait each target validation library implements. Schemas are written out
//! ordered by name.

use vstd::prelude::*;

use crate::text::{lemma_seq_lt_total, lemma_seq_lt_transitive, seq_lt, str_lt};

verus! {

/// The base type a validated field has.
pub enum BaseType {
    Bool,
    Number,
    String,
    Timestamp,
    Uuid,
    Unknown,
}

/// One declared rule on a field.
pub enum Rule {
    Email,
    Url,
    MinLength(u64),
    MaxLength(u64),
    ExactLength(u64),
    Min(i64),
    Max(i64),
    Regex(&'static str),
}

/// A validated field of a request type.
pub struct Field {
    pub name: &'static str,
    pub base: BaseType,
    pub rules: &'static [Rule],
    pub optional: bool,
    pub array: bool,
}

/// The validator schema of one request type.
pub struct ValidatorSchema {
    pub name: &'static str,
    pub fields: &'static [Field],
}

/// Renders the neutral model into one target validation library.
pub trait ValidatorBackend {
    /// The name of the file the schemas are written to.
    fn file_name(&self) -> &str;

    /// The file header, including the library import.
    fn header(&self) -> String;

    /// One schema declaration.
    fn schema(&self, schema: &ValidatorSchema) -> String;
}

/// `a` is not named after `b`.
pub open spec fn name_le(a: &'static ValidatorSchema, b: &'static ValidatorSchema) -> bool {
    !seq_lt(b.name@, a.name@)
}

/// Where `x` goes in a list ordered by name: after every schema whose name
/// is not after its own, so equal names keep their order.
pub open spec fn insert_by_name(sorted: Seq<&'static ValidatorSchema>, x: &'static ValidatorSchema) -> Seq<&'static ValidatorSchema>
    decreases sorted.len(),
{
    if sorted.len() == 0 {
        seq![x]
    } else if name_le(sorted.last(), x) {
        sorted.push(x)
    } else {
        insert_by_name(sorted.drop_last(), x).push(sorted.last())
    }
}

/// A stable sort by name.
pub open spec fn sort_by_name(s: Seq<&'static ValidatorSchema>) -> Seq<&'static ValidatorSchema>
    decreases s.len(),
{
    if s.len() == 0 {
        seq![]
    } else {
        insert_by_name(sort_by_name(s.drop_last()), s.last())
    }
}

pub open spec fn ordered_by_name(s: Seq<&'static ValidatorSchema>) -> bool {
    forall|i: int, j: int| 0 <= i < j < s.len() ==> name_le(#[trigger] s[i], #[trigger] s[j])
}

fn insert_schema(sorted: &mut Vec<&'static ValidatorSchema>, x: &'static ValidatorSchema)
    ensures
        final(sorted)@ == insert_by_name(old(sorted)@, x),
    decreases old(sorted)@.len(),
{
    if sorted.len() == 0 {
        sorted.push(x);
        assert(sorted@ =~= seq![x]);
        return;
    }
    let last = sorted.pop().unwrap();
    let ghost rest = sorted@;
    assert(old(sorted)@.drop_last() =~= rest);
    if !str_lt(x.name, last.name) {
        sorted.push(last);
        sorted.push(x);
        assert(sorted@ =~= old(sorted)@.push(x));
    } else {
        insert_schema(sorted, x);
        sorted.push(last);
        assert(sorted@ =~= insert_by_name(rest, x).push(last));
    }
}

/// The schemas ordered by name, equal names in the order given.
pub fn schemas_by_name(schemas: &Vec<&'static ValidatorSchema>) -> (sorted: Vec<&'static ValidatorSchema>)
    ensures
        sorted@ == sort_by_name(schemas@),
{
    let mut sorted: Vec<&'static ValidatorSchema> = Vec::new();
    let mut i: usize = 0;
    while i < schemas.len()
        invariant
            i <= schemas.len(),
            sorted@ == sort_by_name(schemas@.take(i as int)),
        decreases schemas.len() - i,
    {
        insert_schema(&mut sorted, schemas[i]);
        assert(schemas@.take(i + 1).drop_last() =~= schemas@.take(i as int));
        i = i + 1;
    }
    assert(schemas@.take(schemas.len() as int) =~= schemas@);
    sorted
}

proof fn lemma_name_le_transitive(a: &'static ValidatorSchema, b: &'static ValidatorSchema, c: &'static ValidatorSchema)
    requires
        name_le(a, b),
        name_le(b, c),
    ensures
        name_le(a, c),
{
    lemma_seq_lt_total(a.name@, b.name@);
    if seq_lt(c.name@, a.name@) {
        if seq_lt(a.name@, b.name@) {
            lemma_seq_lt_transitive(c.name@, a.name@, b.name@);
        }
    }
}

proof fn lemma_insert_by_name(sorted: Seq<&'static ValidatorSchema>, x: &'static ValidatorSchema)
    requires
        ordered_by_name(sorted),
    ensures
        ordered_by_name(insert_by_name(sorted, x)),
        insert_by_name(sorted, x).to_multiset() == sorted.to_multiset().insert(x),
    decreases sorted.len(),
{
    broadcast use vstd::seq_lib::group_to_multiset_ensures;

    let r = insert_by_name(sorted, x);
    if sorted.len() == 0 {
        assert(seq![x] =~= Seq::<&'static ValidatorSchema>::empty().push(x));
    } else if name_le(sorted.last(), x) {
        assert forall|i: int, j: int| 0 <= i < j < r.len() implies name_le(#[trigger] r[i], #[trigger] r[j]) by {
            if j == sorted.len() {
                if i < sorted.len() - 1 {
                    lemma_name_le_transitive(sorted[i], sorted.last(), x);
                }
            }
        }
    } else {
        let rest = sorted.drop_last();
        let last = sorted.last();
        assert forall|i: int, j: int| 0 <= i < j < rest.len() implies name_le(#[trigger] rest[i], #[trigger] rest[j]) by {
            assert(rest[i] == sorted[i] && rest[j] == sorted[j]);
        }
        lemma_insert_by_name(rest, x);
        let inner = insert_by_name(rest, x);
        assert(sorted =~= rest.push(last));
        lemma_seq_lt_total(x.name@, last.name@);
        assert forall|k: int| 0 <= k < inner.len() implies name_le(#[trigger] inner[k], last) by {
            let y = inner[k];
            assert(inner.contains(y));
            assert(inner.to_multiset().count(y) > 0);
            if y != x {
                assert(rest.to_multiset().count(y) > 0);
                assert(rest.contains(y));
                let idx = choose|idx: int| 0 <= idx < rest.len() && rest[idx] == y;
                assert(sorted[idx] == y);
                assert(name_le(sorted[idx], sorted[sorted.len() - 1]));
            }
        }
        assert forall|i: int, j: int| 0 <= i < j < r.len() implies name_le(#[trigger] r[i], #[trigger] r[j]) by {
            if j == inner.len() {
                assert(r[i] == inner[i]);
            } else {
                assert(r[i] == inner[i] && r[j] == inner[j]);
            }
        }
    }
}

/// Written schemas come ordered by name, and they are exactly the
/// registered ones.
pub proof fn law_schemas_sorted_by_name(s: Seq<&'static ValidatorSchema>)
    ensures
        ordered_by_name(sort_by_name(s)),
        sort_by_name(s).to_multiset() == s.to_multiset(),
    decreases s.len(),
{
    broadcast use vstd::seq_lib::group_to_multiset_ensures;

    if s.len() > 0 {
        law_schemas_sorted_by_name(s.drop_last());
        lemma_insert_by_name(sort_by_name(s.drop_last()), s.last());
        assert(s =~= s.drop_last().push(s.last()));
    }
}

} // verus!
