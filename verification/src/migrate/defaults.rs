//! Column defaults as the catalog spells them and as the types declare
//! them: casts dropped, quotes around booleans and numbers ignored.

use vstd::prelude::*;

use crate::text::{
    all_digits, is_ascii_alnum, is_digit, lower_ascii, owned, push_char, str_eq, to_ascii_lower, trim, trimmed,
};

verus! {

/// Whether `char::is_alphanumeric` holds of a character: Unicode Alphabetic
/// or Numeric.
pub uninterp spec fn unicode_alphanumeric(c: char) -> bool;

/// `char::is_alphanumeric`. For an ASCII character its documentation makes
/// this exactly the letters and digits; beyond ASCII the result is named by
/// `unicode_alphanumeric`, not stated.
#[verifier::external_body]
fn is_alphanumeric(c: char) -> (r: bool)
    ensures
        r == unicode_alphanumeric(c),
        (c as u32) < 128 ==> (r == is_ascii_alnum(c)),
{
    c.is_alphanumeric()
}

/// A character that may follow `::` in a cast: what names a type. An ASCII
/// character counts when it is a letter or a digit; beyond ASCII, when
/// `char::is_alphanumeric` holds of it.
pub open spec fn cast_char(c: char) -> bool {
    let alnum = if (c as u32) < 128 { is_ascii_alnum(c) } else { unicode_alphanumeric(c) };
    alnum || c == '_' || c == '.' || c == '"' || c == ' '
}

/// The end of the type name that starts at `j`.
pub open spec fn cast_end(s: Seq<char>, j: int) -> int
    decreases s.len() - j,
{
    if 0 <= j < s.len() && cast_char(s[j]) { cast_end(s, j + 1) } else { j }
}

pub proof fn lemma_cast_end(s: Seq<char>, j: int)
    requires
        0 <= j,
    ensures
        j <= cast_end(s, j),
        j <= s.len() ==> cast_end(s, j) <= s.len(),
    decreases s.len() - j,
{
    if 0 <= j < s.len() && cast_char(s[j]) {
        lemma_cast_end(s, j + 1);
    }
}

/// `s` from position `i` on, each `::type` suffix removed.
pub open spec fn strip_from(s: Seq<char>, i: int) -> Seq<char>
    decreases s.len() - i,
{
    if i < 0 || i >= s.len() {
        seq![]
    } else if i + 1 < s.len() && s[i] == ':' && s[i + 1] == ':' {
        proof { lemma_cast_end(s, i + 2); }
        strip_from(s, cast_end(s, i + 2))
    } else {
        seq![s[i]] + strip_from(s, i + 1)
    }
}

/// `s` with its PostgreSQL `::type` casts removed: `'web'::text` reads
/// `'web'`, `nextval('s'::regclass)` reads `nextval('s')`.
pub open spec fn without_casts(s: Seq<char>) -> Seq<char> {
    strip_from(s, 0)
}

/// Removes PostgreSQL `::type` cast suffixes so defaults compare cleanly.
#[verifier::loop_isolation(false)]
pub fn strip_casts(input: &str) -> (output: String)
    ensures
        output@ == without_casts(input@),
{
    let n = input.unicode_len();
    let mut output = String::new();
    let mut i: usize = 0;
    while i < n
        invariant
            i <= n,
            n == input@.len(),
            output@ + strip_from(input@, i as int) == without_casts(input@),
        decreases n - i,
    {
        let c = input.get_char(i);
        if c == ':' && i + 1 < n && input.get_char(i + 1) == ':' {
            let mut j: usize = i + 2;
            while j < n && is_alphanumeric(input.get_char(j)) || j < n && is_cast_punctuation(input.get_char(j))
                invariant
                    i + 2 <= j <= n,
                    cast_end(input@, i + 2) == cast_end(input@, j as int),
                decreases n - j,
            {
                j = j + 1;
            }
            assert(cast_end(input@, j as int) == j);
            i = j;
        } else {
            let ghost before = output@;
            push_char(&mut output, c);
            assert(before + strip_from(input@, i as int) =~= output@ + strip_from(input@, i + 1));
            i = i + 1;
        }
    }
    assert(output@ =~= without_casts(input@));
    output
}

fn is_cast_punctuation(c: char) -> (r: bool)
    ensures
        r == (c == '_' || c == '.' || c == '"' || c == ' '),
{
    c == '_' || c == '.' || c == '"' || c == ' '
}

pub open spec fn is_sign(c: char) -> bool {
    c == '+' || c == '-'
}

/// The mantissa of a decimal float: digits with at most one point, and at
/// least one digit.
pub open spec fn mantissa_ok(m: Seq<char>) -> bool {
    &&& forall|i: int| 0 <= i < m.len() ==> is_digit(#[trigger] m[i]) || m[i] == '.'
    &&& forall|i: int, j: int| 0 <= i < j < m.len() && #[trigger] m[i] == '.' ==> #[trigger] m[j] != '.'
    &&& exists|i: int| 0 <= i < m.len() && is_digit(#[trigger] m[i])
}

/// An exponent after `e`: an optional sign and one or more digits.
pub open spec fn exponent_ok(x: Seq<char>) -> bool {
    let d = if x.len() > 0 && is_sign(x[0]) { x.skip(1) } else { x };
    d.len() > 0 && all_digits(d)
}

pub open spec fn is_exp_mark(c: char) -> bool {
    c == 'e' || c == 'E'
}

/// The first `e` or `E`.
pub open spec fn exp_mark_position(s: Seq<char>) -> Option<int> {
    if exists|i: int| 0 <= i < s.len() && is_exp_mark(s[i]) && forall|j: int| 0 <= j < i ==> !is_exp_mark(s[j]) {
        Some(choose|i: int| 0 <= i < s.len() && is_exp_mark(s[i]) && forall|j: int| 0 <= j < i ==> !is_exp_mark(s[j]))
    } else {
        None
    }
}

/// What `f64::from_str` accepts: an optional sign, then `inf`, `infinity`
/// or `nan` in any case, or a decimal mantissa with an optional exponent.
pub open spec fn float_literal(s: Seq<char>) -> bool {
    let body = if s.len() > 0 && is_sign(s[0]) { s.skip(1) } else { s };
    let word = lower_ascii(body);
    ||| word == "inf"@
    ||| word == "infinity"@
    ||| word == "nan"@
    ||| match exp_mark_position(body) {
        Some(e) => mantissa_ok(body.take(e)) && exponent_ok(body.skip(e + 1)),
        None => mantissa_ok(body),
    }
}

#[verifier::loop_isolation(false)]
fn mantissa_valid(s: &str, from: usize, to: usize) -> (ok: bool)
    requires
        from <= to <= s@.len(),
    ensures
        ok == mantissa_ok(s@.subrange(from as int, to as int)),
{
    let ghost m = s@.subrange(from as int, to as int);
    let mut dots: usize = 0;
    let mut digits: usize = 0;
    let mut dot_at: usize = 0;
    let mut i: usize = from;
    while i < to
        invariant
            from <= i <= to <= s@.len(),
            m == s@.subrange(from as int, to as int),
            forall|k: int| 0 <= k < i - from ==> is_digit(#[trigger] m[k]) || m[k] == '.',
            dots <= 1,
            dots == 0 ==> forall|k: int| 0 <= k < i - from ==> #[trigger] m[k] != '.',
            dots == 1 ==> dot_at < i - from && m[dot_at as int] == '.'
                && forall|k: int| 0 <= k < i - from && k != dot_at ==> #[trigger] m[k] != '.',
            digits > 0 <==> exists|k: int| 0 <= k < i - from && is_digit(#[trigger] m[k]),
            digits <= i - from,
        decreases to - i,
    {
        let c = s.get_char(i);
        assert(m[i - from] == c);
        if c == '.' {
            if dots == 1 {
                assert(m[dot_at as int] == '.' && m[i - from] == '.');
                return false;
            }
            dots = 1;
            dot_at = i - from;
        } else if '0' <= c && c <= '9' {
            digits = digits + 1;
        } else {
            return false;
        }
        i = i + 1;
    }
    if digits == 0 {
        return false;
    }
    assert forall|a: int, b: int| 0 <= a < b < m.len() && #[trigger] m[a] == '.' implies #[trigger] m[b] != '.' by {}
    true
}

#[verifier::loop_isolation(false)]
fn exponent_valid(s: &str, from: usize) -> (ok: bool)
    requires
        from <= s@.len(),
    ensures
        ok == exponent_ok(s@.skip(from as int)),
{
    let n = s.unicode_len();
    let ghost x = s@.skip(from as int);
    let start = if from < n && (s.get_char(from) == '+' || s.get_char(from) == '-') { from + 1 } else { from };
    assert(from < n ==> x[0] == s@[from as int]);
    let ghost d = if x.len() > 0 && is_sign(x[0]) { x.skip(1) } else { x };
    assert(d =~= s@.skip(start as int));
    if start == n {
        return false;
    }
    let mut i: usize = start;
    while i < n
        invariant
            start <= i <= n,
            n == s@.len(),
            d =~= s@.skip(start as int),
            forall|k: int| 0 <= k < i - start ==> is_digit(#[trigger] d[k]),
        decreases n - i,
    {
        let c = s.get_char(i);
        assert(d[i - start] == c);
        if !('0' <= c && c <= '9') {
            assert(!is_digit(d[i - start]));
            return false;
        }
        i = i + 1;
    }
    true
}

/// Whether `f64::from_str` accepts `s`.
#[verifier::loop_isolation(false)]
pub fn is_float_literal(s: &str) -> (ok: bool)
    ensures
        ok == float_literal(s@),
{
    let n = s.unicode_len();
    let start: usize = if n > 0 && (s.get_char(0) == '+' || s.get_char(0) == '-') { 1 } else { 0 };
    let ghost body = if s@.len() > 0 && is_sign(s@[0]) { s@.skip(1) } else { s@ };
    let rest = s.substring_char(start, n);
    assert(body =~= rest@);
    let word = to_ascii_lower(rest);
    if str_eq(word.as_str(), "inf") || str_eq(word.as_str(), "infinity") || str_eq(word.as_str(), "nan") {
        return true;
    }
    let mut e: usize = start;
    while e < n && !(s.get_char(e) == 'e' || s.get_char(e) == 'E')
        invariant
            start <= e <= n,
            n == s@.len(),
            body =~= s@.skip(start as int),
            forall|k: int| 0 <= k < e - start ==> !is_exp_mark(#[trigger] body[k]),
        decreases n - e,
    {
        assert(body[e - start] == s@[e as int]);
        e = e + 1;
    }
    if e < n {
        let ghost p = (e - start) as int;
        assert(is_exp_mark(body[p]));
        assert(exp_mark_position(body) == Some(p)) by {
            let q = choose|q: int| 0 <= q < body.len() && is_exp_mark(body[q]) && forall|j: int| 0 <= j < q ==> !is_exp_mark(body[j]);
            if q < p { assert(!is_exp_mark(body[q])); }
            if p < q { assert(!is_exp_mark(body[p])); }
        }
        assert(body.take(p) =~= s@.subrange(start as int, e as int));
        assert(body.skip(p + 1) =~= s@.skip(e + 1));
        mantissa_valid(s, start, e) && exponent_valid(s, e + 1)
    } else {
        assert(exp_mark_position(body) is None);
        assert(body =~= s@.subrange(start as int, n as int));
        mantissa_valid(s, start, n)
    }
}

/// A default in the form both sides compare: casts removed, trimmed, and a
/// quoted boolean or number unquoted.
pub open spec fn normalized_default(value: Seq<char>) -> Seq<char> {
    let v = trim(without_casts(value));
    if v.len() >= 2 && v[0] == '\'' && v.last() == '\'' {
        let inner = v.subrange(1, v.len() - 1);
        if inner == "true"@ || inner == "false"@ || float_literal(inner) { inner } else { v }
    } else {
        v
    }
}

pub fn normalize_default(value: &str) -> (res: String)
    ensures
        res@ == normalized_default(value@),
{
    let without = strip_casts(value);
    let v = trimmed(without.as_str());
    let n = v.as_str().unicode_len();
    if n >= 2 && v.as_str().get_char(0) == '\'' && v.as_str().get_char(n - 1) == '\'' {
        let inner = v.as_str().substring_char(1, n - 1);
        if str_eq(inner, "true") || str_eq(inner, "false") || is_float_literal(inner) {
            return owned(inner);
        }
    }
    v
}

pub open spec fn equivalent_defaults(current: Option<Seq<char>>, desired: Option<Seq<char>>) -> bool {
    match (current, desired) {
        (None, None) => true,
        (Some(c), Some(d)) => normalized_default(c) == normalized_default(d),
        _ => false,
    }
}

/// Whether a catalog default and a declared one mean the same value.
pub fn defaults_equivalent(current: Option<&str>, desired: Option<&str>) -> (same: bool)
    ensures
        same == equivalent_defaults(
            match current { Some(c) => Some(c@), None => None },
            match desired { Some(d) => Some(d@), None => None },
        ),
{
    match (current, desired) {
        (None, None) => true,
        (Some(c), Some(d)) => {
            let a = normalize_default(c);
            let b = normalize_default(d);
            str_eq(a.as_str(), b.as_str())
        },
        _ => false,
    }
}

/// Every default is equivalent to itself.
pub proof fn law_defaults_reflexive(d: Option<Seq<char>>)
    ensures
        equivalent_defaults(d, d),
{
}

/// Equivalence of defaults does not depend on which side is the catalog's.
pub proof fn law_defaults_symmetric(a: Option<Seq<char>>, b: Option<Seq<char>>)
    ensures
        equivalent_defaults(a, b) == equivalent_defaults(b, a),
{
}

/// Equivalence of defaults chains.
pub proof fn law_defaults_transitive(a: Option<Seq<char>>, b: Option<Seq<char>>, c: Option<Seq<char>>)
    requires
        equivalent_defaults(a, b),
        equivalent_defaults(b, c),
    ensures
        equivalent_defaults(a, c),
{
}

} // verus!
