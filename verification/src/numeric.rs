//! Decimal text backed by PostgreSQL `numeric`: plain decimal strings, never
//! converted through floating point, and the binary `numeric` wire format
//! decoded into them.

use vstd::prelude::*;

use crate::text::{
    all_digits, char_position, find_char, is_digit, lemma_decimal_digits, lemma_zeros_prefix, owned, push_char,
    push_padded4, zero_padded,
};

verus! {

/// A plain decimal string: an optional minus, digits, and an optional
/// fraction of digits after a point.
#[derive(Debug, PartialEq, Eq, Hash)]
pub struct NumericText {
    text: String,
}

impl View for NumericText {
    type V = Seq<char>;

    closed spec fn view(&self) -> Seq<char> {
        self.text@
    }
}

impl Clone for NumericText {
    fn clone(&self) -> (copy: NumericText)
        ensures
            copy@ == self@,
    {
        proof { use_type_invariant(self); }
        NumericText { text: self.text.clone() }
    }
}

impl NumericText {
    /// Every value holds a plain decimal.
    #[verifier::type_invariant]
    spec fn holds_plain_decimal(self) -> bool {
        plain_decimal(self.text@)
    }
}

/// `value` without a leading minus.
pub open spec fn unsigned_part(value: Seq<char>) -> Seq<char> {
    if value.len() > 0 && value[0] == '-' { value.skip(1) } else { value }
}

/// What `new` accepts: digits before an optional point, digits after it,
/// at least one digit before it and at least one after it when present.
pub open spec fn plain_decimal(value: Seq<char>) -> bool {
    let u = unsigned_part(value);
    let (whole, fraction) = match char_position(u, '.') {
        Some(i) => (u.take(i), u.skip(i + 1)),
        None => (u, Seq::<char>::empty()),
    };
    &&& whole.len() > 0
    &&& all_digits(whole)
    &&& !(char_position(u, '.') is Some && fraction.len() == 0)
    &&& all_digits(fraction)
}

/// Every digit is zero.
pub open spec fn all_zero(s: Seq<char>) -> bool {
    forall|i: int| 0 <= i < s.len() ==> #[trigger] s[i] == '0' || s[i] == '.'
}

/// The stored spelling: a negative zero loses its sign.
pub open spec fn normalized_decimal(value: Seq<char>) -> Seq<char> {
    if value.len() > 0 && value[0] == '-' && all_zero(value.skip(1)) { value.skip(1) } else { value }
}

impl NumericText {
    /// Accepts a plain decimal string; a negative zero is stored unsigned.
    #[verifier::loop_isolation(false)]
    #[verifier::rlimit(40)]
    pub fn new(value: &str) -> (r: Result<NumericText, &'static str>)
        ensures
            match r {
                Ok(n) => plain_decimal(value@) && n@ == normalized_decimal(value@),
                Err(_) => !plain_decimal(value@),
            },
    {
        let n = value.unicode_len();
        let start: usize = if n > 0 && value.get_char(0) == '-' { 1 } else { 0 };
        let unsigned = value.substring_char(start, n);
        assert(unsigned@ =~= unsigned_part(value@));
        let m = unsigned.unicode_len();
        let (whole_end, fraction_start) = match find_char(unsigned, '.') {
            Some(i) => {
                proof {
                    let w = choose|w: int| 0 <= w < unsigned@.len() && unsigned@[w] == '.' && forall|j: int| 0 <= j < w ==> unsigned@[j] != '.';
                }
                (i, i + 1)
            },
            None => (m, m),
        };
        let ghost whole = unsigned@.take(whole_end as int);
        let ghost fraction = unsigned@.skip(fraction_start as int);
        let has_point = whole_end < m;
        if whole_end == 0 {
            return Err("expected a plain decimal string");
        }
        let mut i: usize = 0;
        while i < whole_end
            invariant
                i <= whole_end <= m,
                m == unsigned@.len(),
                whole == unsigned@.take(whole_end as int),
                forall|k: int| 0 <= k < i ==> is_digit(#[trigger] whole[k]),
            decreases whole_end - i,
        {
            let c = unsigned.get_char(i);
            assert(whole[i as int] == c);
            if !('0' <= c && c <= '9') {
                assert(!all_digits(whole));
                return Err("expected a plain decimal string");
            }
            i = i + 1;
        }
        if has_point && fraction_start == m {
            assert(fraction.len() == 0);
            return Err("expected a plain decimal string");
        }
        let mut i: usize = fraction_start;
        while i < m
            invariant
                fraction_start <= i <= m,
                m == unsigned@.len(),
                fraction == unsigned@.skip(fraction_start as int),
                forall|k: int| 0 <= k < i - fraction_start ==> is_digit(#[trigger] fraction[k]),
            decreases m - i,
        {
            let c = unsigned.get_char(i);
            assert(fraction[i - fraction_start] == c);
            if !('0' <= c && c <= '9') {
                assert(!is_digit(fraction[i - fraction_start]));
                return Err("expected a plain decimal string");
            }
            i = i + 1;
        }
        proof {
            if !has_point {
                assert(fraction =~= Seq::<char>::empty());
                assert(whole =~= unsigned@);
            }
        }
        assert(plain_decimal(value@));
        if start == 1 {
            proof { lemma_unsigned_plain(value@); }
            let mut zero = true;
            let mut k: usize = 0;
            while k < m
                invariant
                    k <= m,
                    m == unsigned@.len(),
                    zero == forall|j: int| 0 <= j < k ==> #[trigger] unsigned@[j] == '0' || unsigned@[j] == '.',
                decreases m - k,
            {
                let c = unsigned.get_char(k);
                if !(c == '0' || c == '.') {
                    zero = false;
                }
                k = k + 1;
            }
            if zero {
                return Ok(NumericText { text: owned(unsigned) });
            }
        }
        Ok(NumericText { text: owned(value) })
    }

    pub fn as_str(&self) -> (s: &str)
        ensures
            s@ == self@,
            plain_decimal(s@),
    {
        proof { use_type_invariant(self); }
        self.text.as_str()
    }
}

impl std::str::FromStr for NumericText {
    type Err = &'static str;

    fn from_str(value: &str) -> (r: Result<NumericText, &'static str>)
        ensures
            match r {
                Ok(n) => plain_decimal(value@) && n@ == normalized_decimal(value@),
                Err(_) => !plain_decimal(value@),
            },
    {
        NumericText::new(value)
    }
}

// ---------------------------------------------------------------------------
// The binary wire format

/// Why a binary `numeric` value is refused.
#[derive(Debug)]
pub enum NumericError {
    /// The payload is not a well-formed `numeric` value.
    InvalidPayload,
    /// The value is NaN or an infinity, which decimal text cannot hold.
    NotFinite,
}

impl NumericError {
    pub fn message(&self) -> (text: &'static str)
        ensures
            match self {
                NumericError::InvalidPayload => text@ == "invalid PostgreSQL numeric payload"@,
                NumericError::NotFinite => text@ == "PostgreSQL numeric is not a finite decimal"@,
            },
    {
        match self {
            NumericError::InvalidPayload => "invalid PostgreSQL numeric payload",
            NumericError::NotFinite => "PostgreSQL numeric is not a finite decimal",
        }
    }
}

/// A big-endian 16-bit word.
pub open spec fn word(hi: u8, lo: u8) -> int {
    hi as int * 256 + lo as int
}

/// A 16-bit word read as two's complement.
pub open spec fn signed_word(w: int) -> int {
    if w >= 32768 { w - 65536 } else { w }
}

/// The base-10000 digit groups after the 8-byte header.
pub open spec fn digit_groups(raw: Seq<u8>) -> Seq<int> {
    Seq::new(((raw.len() - 8) / 2) as nat, |k: int| signed_word(word(raw[8 + 2 * k], raw[9 + 2 * k])))
}

/// The digit group of weight `exponent` (10000^exponent); 0 outside the
/// stored groups.
pub open spec fn group_at(digits: Seq<int>, weight: int, exponent: int) -> int {
    let index = weight - exponent;
    if index < 0 || index >= digits.len() { 0 } else { digits[index] }
}

/// The groups of weights `top`, `top - 1`, ... (`n` of them), each as four
/// decimal digits.
pub open spec fn groups_text(digits: Seq<int>, weight: int, top: int, n: nat) -> Seq<char>
    decreases n,
{
    if n == 0 {
        seq![]
    } else {
        groups_text(digits, weight, top, (n - 1) as nat) + zero_padded(group_at(digits, weight, top - (n - 1)) as nat, 4)
    }
}

pub open spec fn trim_leading_zeros(s: Seq<char>) -> Seq<char>
    decreases s.len(),
{
    if s.len() > 0 && s[0] == '0' { trim_leading_zeros(s.drop_first()) } else { s }
}

/// The decimal text of a binary `numeric` payload: the integer part from
/// the groups of weight `weight` down to 0 without leading zeros (`0` when
/// empty), then `scale` fraction digits from the groups below, and a minus
/// when the sign is negative and some digit is not zero.
pub open spec fn decoded_text(raw: Seq<u8>) -> Seq<char> {
    let weight = signed_word(word(raw[2], raw[3]));
    let sign = word(raw[4], raw[5]);
    let scale = word(raw[6], raw[7]);
    let digits = digit_groups(raw);
    let whole = if weight >= 0 { groups_text(digits, weight, weight, (weight + 1) as nat) } else { seq![] };
    let trimmed = trim_leading_zeros(whole);
    let integer = if trimmed.len() == 0 { "0"@ } else { trimmed };
    let fraction = groups_text(digits, weight, -1, ((scale + 3) / 4) as nat).take(scale);
    let unsigned = if scale > 0 { integer + "."@ + fraction } else { integer };
    if sign == 0x4000 && exists|k: int| 0 <= k < digits.len() && digits[k] != 0 { "-"@ + unsigned } else { unsigned }
}

/// What a binary `numeric` payload decodes to.
pub open spec fn decoded(raw: Seq<u8>) -> Result<Seq<char>, NumericError> {
    if raw.len() < 8 {
        Err(NumericError::InvalidPayload)
    } else {
        let count = signed_word(word(raw[0], raw[1]));
        let sign = word(raw[4], raw[5]);
        if count < 0 || raw.len() != 8 + count * 2 {
            Err(NumericError::InvalidPayload)
        } else if sign == 0xC000 || sign == 0xD000 || sign == 0xF000 {
            Err(NumericError::NotFinite)
        } else if sign != 0x0000 && sign != 0x4000 {
            Err(NumericError::InvalidPayload)
        } else if exists|k: int| 0 <= k < digit_groups(raw).len() && !(0 <= #[trigger] digit_groups(raw)[k] < 10000) {
            Err(NumericError::InvalidPayload)
        } else {
            Ok(decoded_text(raw))
        }
    }
}

proof fn lemma_padded_group(g: int)
    requires
        0 <= g < 10000,
    ensures
        zero_padded(g as nat, 4).len() == 4,
{
    crate::text::lemma_decimal_len(g as nat);
    if g >= 1000 {
        crate::text::lemma_decimal_len(g as nat / 10);
        crate::text::lemma_decimal_len(g as nat / 100);
        crate::text::lemma_decimal_len(g as nat / 1000);
        assert(crate::text::decimal(g as nat).len() == 4) by {
            reveal_with_fuel(crate::text::decimal, 5);
        }
    }
}

proof fn lemma_groups_len(digits: Seq<int>, weight: int, top: int, n: nat)
    requires
        forall|k: int| 0 <= k < digits.len() ==> 0 <= #[trigger] digits[k] < 10000,
    ensures
        groups_text(digits, weight, top, n).len() == 4 * n,
    decreases n,
{
    if n > 0 {
        lemma_groups_len(digits, weight, top, (n - 1) as nat);
        let g = group_at(digits, weight, top - (n - 1));
        lemma_padded_group(g);
    }
}

fn read_word(raw: &[u8], at: usize) -> (w: u32)
    requires
        at + 1 < raw@.len(),
    ensures
        w == word(raw@[at as int], raw@[at + 1]),
{
    (raw[at] as u32) * 256 + (raw[at + 1] as u32)
}

fn group_value(raw: &[u8], weight: i32, exponent: i32, count: usize) -> (g: u64)
    requires
        raw@.len() == 8 + 2 * count,
        count < 32768,
        -40000 <= weight <= 40000,
        -40000 <= exponent <= 40000,
        forall|k: int| 0 <= k < digit_groups(raw@).len() ==> 0 <= #[trigger] digit_groups(raw@)[k] < 10000,
    ensures
        g == group_at(digit_groups(raw@), weight as int, exponent as int),
        g < 10000,
{
    let index = weight - exponent;
    if index < 0 || index as usize >= count {
        return 0;
    }
    let k = index as usize;
    let w = read_word(raw, 8 + 2 * k);
    assert(digit_groups(raw@)[k as int] == signed_word(w as int));
    assert(0 <= digit_groups(raw@)[k as int] < 10000);
    w as u64
}


/// The first point of `integer.fraction` is the one after `integer`.
proof fn lemma_point_position(integer: Seq<char>, fraction: Seq<char>)
    requires
        all_digits(integer),
        all_digits(fraction),
    ensures
        fraction.len() > 0 ==> char_position(integer + "."@ + fraction, '.') == Some(integer.len() as int),
        char_position(integer, '.') is None,
{
    assert forall|j: int| 0 <= j < integer.len() implies integer[j] != '.' by {
        assert(is_digit(integer[j]));
    }
    if fraction.len() > 0 {
        let u = integer + "."@ + fraction;
        let p = integer.len() as int;
        assert(u[p] == '.') by {
            reveal_strlit(".");
        }
        assert(forall|j: int| 0 <= j < p ==> u[j] == integer[j]);
        let w = choose|i: int| 0 <= i < u.len() && u[i] == '.' && forall|j: int| 0 <= j < i ==> u[j] != '.';
        assert(w == p) by {
            if w < p {
                assert(u[w] == integer[w]);
            }
            if p < w {
                assert(u[p] != '.');
            }
        }
    }
}

/// Digits, then a point and more digits when there is a fraction, form a
/// plain decimal, with or without a minus in front.
proof fn lemma_plain_of_parts(integer: Seq<char>, fraction: Seq<char>)
    requires
        integer.len() > 0,
        all_digits(integer),
        all_digits(fraction),
    ensures
        ({
            let u = if fraction.len() > 0 { integer + "."@ + fraction } else { integer };
            plain_decimal(u) && plain_decimal("-"@ + u)
        }),
{
    reveal_strlit(".");
    reveal_strlit("-");
    lemma_point_position(integer, fraction);
    let u = if fraction.len() > 0 { integer + "."@ + fraction } else { integer };
    assert(u[0] == integer[0]);
    assert(is_digit(integer[0]));
    assert(unsigned_part(u) == u);
    assert(("-"@ + u).skip(1) =~= u);
    assert(unsigned_part("-"@ + u) == u);
    if fraction.len() > 0 {
        let p = integer.len() as int;
        assert(u.take(p) =~= integer);
        assert(u.skip(p + 1) =~= fraction);
    } else {
        assert(all_digits(Seq::<char>::empty()));
    }
}

/// A plain decimal without its minus is still one.
proof fn lemma_unsigned_plain(value: Seq<char>)
    requires
        plain_decimal(value),
    ensures
        plain_decimal(unsigned_part(value)),
{
    let u = unsigned_part(value);
    let (whole, fraction) = match char_position(u, '.') {
        Some(i) => (u.take(i), u.skip(i + 1)),
        None => (u, Seq::<char>::empty()),
    };
    lemma_point_position(whole, fraction);
    match char_position(u, '.') {
        Some(i) => {
            let w = choose|w: int| 0 <= w < u.len() && u[w] == '.' && forall|j: int| 0 <= j < w ==> u[j] != '.';
            assert(u =~= whole + "."@ + fraction) by {
                reveal_strlit(".");
            }
        },
        None => {},
    }
    lemma_plain_of_parts(whole, fraction);
}

/// Four-digit groups are digits.
proof fn lemma_groups_digits(digits: Seq<int>, weight: int, top: int, n: nat)
    requires
        forall|k: int| 0 <= k < digits.len() ==> 0 <= #[trigger] digits[k] < 10000,
    ensures
        all_digits(groups_text(digits, weight, top, n)),
    decreases n,
{
    if n > 0 {
        lemma_groups_digits(digits, weight, top, (n - 1) as nat);
        let g = group_at(digits, weight, top - (n - 1)) as nat;
        lemma_decimal_digits(g);
        let d = crate::text::decimal(g);
        if d.len() < 4 {
            lemma_zeros_prefix((4 - d.len()) as nat, d);
        }
        let a = groups_text(digits, weight, top, (n - 1) as nat);
        let b = zero_padded(g, 4);
        assert forall|i: int| 0 <= i < (a + b).len() implies is_digit(#[trigger] (a + b)[i]) by {
            if i < a.len() {
                assert((a + b)[i] == a[i]);
            } else {
                assert((a + b)[i] == b[i - a.len()]);
            }
        }
    }
}

/// Trimming leading zeros keeps a suffix.
proof fn lemma_trim_suffix(s: Seq<char>)
    ensures
        exists|k: int| 0 <= k <= s.len() && trim_leading_zeros(s) == s.skip(k),
    decreases s.len(),
{
    if s.len() > 0 && s[0] == '0' {
        lemma_trim_suffix(s.drop_first());
        let k = choose|k: int| 0 <= k <= s.drop_first().len() && trim_leading_zeros(s.drop_first()) == s.drop_first().skip(k);
        assert(s.drop_first().skip(k) =~= s.skip(k + 1));
    } else {
        assert(s.skip(0) =~= s);
    }
}

/// A decoded payload reads as a plain decimal.
proof fn lemma_decoded_plain(raw: Seq<u8>)
    requires
        raw.len() >= 8,
        forall|k: int| 0 <= k < digit_groups(raw).len() ==> 0 <= #[trigger] digit_groups(raw)[k] < 10000,
    ensures
        plain_decimal(decoded_text(raw)),
{
    let weight = signed_word(word(raw[2], raw[3]));
    let scale = word(raw[6], raw[7]);
    let digits = digit_groups(raw);
    let whole = if weight >= 0 { groups_text(digits, weight, weight, (weight + 1) as nat) } else { seq![] };
    if weight >= 0 {
        lemma_groups_digits(digits, weight, weight, (weight + 1) as nat);
    }
    let trimmed = trim_leading_zeros(whole);
    lemma_trim_suffix(whole);
    let k = choose|k: int| 0 <= k <= whole.len() && trimmed == whole.skip(k);
    assert forall|i: int| 0 <= i < trimmed.len() implies is_digit(#[trigger] trimmed[i]) by {
        assert(trimmed[i] == whole[i + k]);
    }
    let integer = if trimmed.len() == 0 { "0"@ } else { trimmed };
    assert(integer.len() > 0 && all_digits(integer)) by {
        reveal_strlit("0");
    }
    let groups = groups_text(digits, weight, -1, ((scale + 3) / 4) as nat);
    lemma_groups_digits(digits, weight, -1, ((scale + 3) / 4) as nat);
    lemma_groups_len(digits, weight, -1, ((scale + 3) / 4) as nat);
    let fraction = groups.take(scale);
    assert(0 <= scale < 65536);
    assert(fraction.len() == scale);
    assert forall|i: int| 0 <= i < fraction.len() implies is_digit(#[trigger] fraction[i]) by {
        assert(fraction[i] == groups[i]);
    }
    lemma_plain_of_parts(integer, fraction);
}

/// Whatever a binary payload decodes to is a plain decimal, the form
/// `new` accepts.
pub proof fn law_decoded_numeric_is_plain(raw: Seq<u8>)
    ensures
        decoded(raw) matches Ok(text) ==> plain_decimal(text),
{
    if decoded(raw) is Ok {
        lemma_decoded_plain(raw);
    }
}

impl NumericText {
    /// Decodes PostgreSQL's binary `numeric` format.
    #[verifier::loop_isolation(false)]
    pub fn from_sql_bytes(raw: &[u8]) -> (r: Result<NumericText, NumericError>)
        ensures
            match r {
                Ok(n) => decoded(raw@) == Ok::<Seq<char>, NumericError>(n@),
                Err(NumericError::InvalidPayload) => decoded(raw@) == Err::<Seq<char>, NumericError>(NumericError::InvalidPayload),
                Err(NumericError::NotFinite) => decoded(raw@) == Err::<Seq<char>, NumericError>(NumericError::NotFinite),
            },
    {
        if raw.len() < 8 {
            return Err(NumericError::InvalidPayload);
        }
        let count_word = read_word(raw, 0);
        if count_word >= 32768 {
            return Err(NumericError::InvalidPayload);
        }
        let count = count_word as usize;
        if raw.len() != 8 + count * 2 {
            return Err(NumericError::InvalidPayload);
        }
        let weight_word = read_word(raw, 2);
        let weight: i32 = if weight_word >= 32768 { weight_word as i32 - 65536 } else { weight_word as i32 };
        let sign = read_word(raw, 4);
        let scale = read_word(raw, 6);
        if sign == 0xC000 || sign == 0xD000 || sign == 0xF000 {
            return Err(NumericError::NotFinite);
        }
        if sign != 0x0000 && sign != 0x4000 {
            return Err(NumericError::InvalidPayload);
        }
        let ghost digits = digit_groups(raw@);
        assert(digits.len() == count);
        let mut nonzero = false;
        let mut k: usize = 0;
        while k < count
            invariant
                k <= count,
                raw@.len() == 8 + 2 * count,
                digits == digit_groups(raw@),
                digits.len() == count,
                forall|j: int| 0 <= j < k ==> 0 <= #[trigger] digits[j] < 10000,
                nonzero == exists|j: int| 0 <= j < k && digits[j] != 0,
            decreases count - k,
        {
            let w = read_word(raw, 8 + 2 * k);
            assert(digits[k as int] == signed_word(w as int));
            if w >= 10000 {
                assert(!(0 <= digits[k as int] < 10000));
                return Err(NumericError::InvalidPayload);
            }
            if w != 0 {
                nonzero = true;
            }
            k = k + 1;
        }
        let mut whole = String::new();
        if weight >= 0 {
            let mut e: i32 = weight;
            loop
                invariant
                    -1 <= e <= weight,
                    weight >= 0,
                    raw@.len() == 8 + 2 * count,
                    forall|j: int| 0 <= j < digits.len() ==> 0 <= #[trigger] digits[j] < 10000,
                    whole@ == groups_text(digits, weight as int, weight as int, (weight - e) as nat),
                decreases e + 1,
            {
                if e < 0 {
                    break;
                }
                let g = group_value(raw, weight, e, count);
                push_padded4(&mut whole, g);
                e = e - 1;
            }
        }
        let ghost whole_v = whole@;
        let mut z: usize = 0;
        let wn = whole.as_str().unicode_len();
        assert(whole_v.skip(0) =~= whole_v);
        while z < wn && whole.as_str().get_char(z) == '0'
            invariant
                z <= wn,
                wn == whole_v.len(),
                whole@ == whole_v,
                trim_leading_zeros(whole_v) == trim_leading_zeros(whole_v.skip(z as int)),
            decreases wn - z,
        {
            assert(whole_v.skip(z as int).drop_first() =~= whole_v.skip(z + 1));
            z = z + 1;
        }
        assert(trim_leading_zeros(whole_v.skip(z as int)) == whole_v.skip(z as int));
        let mut result = if z == wn { owned("0") } else { owned(whole.as_str().substring_char(z, wn)) };
        if scale > 0 {
            result.append(".");
            let groups = (scale + 3) / 4;
            let mut fraction = String::new();
            let mut e: u32 = 1;
            while e <= groups
                invariant
                    1 <= e <= groups + 1,
                    groups == (scale + 3) / 4,
                    scale < 65536,
                    weight >= -32768 && weight < 32768,
                    raw@.len() == 8 + 2 * count,
                    forall|j: int| 0 <= j < digits.len() ==> 0 <= #[trigger] digits[j] < 10000,
                    fraction@ == groups_text(digits, weight as int, -1, (e - 1) as nat),
                decreases groups + 1 - e,
            {
                let g = group_value(raw, weight, -(e as i32), count);
                push_padded4(&mut fraction, g);
                e = e + 1;
            }
            proof { lemma_groups_len(digits, weight as int, -1, groups as nat); }
            let head = fraction.as_str().substring_char(0, scale as usize);
            result.append(head);
        }
        proof { lemma_decoded_plain(raw@); }
        if sign == 0x4000 && nonzero {
            let mut signed = owned("-");
            signed.append(result.as_str());
            return Ok(NumericText { text: signed });
        }
        Ok(NumericText { text: result })
    }
}

} // verus!
