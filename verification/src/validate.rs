//! Validation of request values: the rule checks the `validator` crate
//! provides, the trait validated types implement, and the body of a
//! rejected request.

use vstd::prelude::*;

use validator::{ValidateEmail, ValidateLength, ValidateRange, ValidateRegex, ValidateRequired};

use crate::schema::named::{keys_of, NamedMap};
use crate::text::{concat2, join, join_strings, owned};

verus! {

#[verifier::external_type_specification]
#[verifier::external_body]
pub struct ExValidationErrors(validator::ValidationErrors);

/// Validation of a value against its declared rules.
pub trait Validate {
    fn validate(&self) -> Result<(), validator::ValidationErrors>;
}

/// The `length(min, max, equal)` rule over a length: `equal` alone decides
/// when given; otherwise the length is within the given bounds.
pub open spec fn length_within(len: nat, min: Option<u64>, max: Option<u64>, equal: Option<u64>) -> bool {
    match equal {
        Some(e) => len == e,
        None => (match min { Some(m) => len >= m, None => true }) && (match max { Some(m) => len <= m, None => true }),
    }
}

/// `ValidateLength::validate_length` on a string, whose length is its
/// number of characters.
#[verifier::external_body]
fn validate_length_of(value: &str, min: Option<u64>, max: Option<u64>, equal: Option<u64>) -> (ok: bool)
    ensures
        ok == length_within(value@.len(), min, max, equal),
{
    value.validate_length(min, max, equal)
}

/// Whether `validator` accepts `s` as an e-mail address (the HTML form
/// rules, with its domain and length checks).
pub uninterp spec fn valid_email(s: Seq<char>) -> bool;

/// `ValidateEmail::validate_email` on a string. Its source refuses an empty
/// string and one without `@` before anything else; beyond that the result
/// is named by `valid_email`, not stated.
#[verifier::external_body]
fn validate_email_of(value: &str) -> (ok: bool)
    ensures
        ok == valid_email(value@),
        (value@.len() == 0 || !value@.contains('@')) ==> !ok,
{
    value.validate_email()
}

/// The `length` rule on a string's characters.
pub fn length_ok(value: &str, min: Option<u64>, max: Option<u64>, equal: Option<u64>) -> (ok: bool)
    ensures
        ok == length_within(value@.len(), min, max, equal),
{
    validate_length_of(value, min, max, equal)
}

/// The `email` rule.
pub fn email_ok(value: &str) -> (ok: bool)
    ensures
        ok == valid_email(value@),
        (value@.len() == 0 || !value@.contains('@')) ==> !ok,
{
    validate_email_of(value)
}

/// The `range(min, max, exclusive_min, exclusive_max)` rule: each bound
/// that is given holds.
pub open spec fn range_within(value: i64, min: Option<i64>, max: Option<i64>, exclusive_min: Option<i64>, exclusive_max: Option<i64>) -> bool {
    &&& (match max { Some(m) => value <= m, None => true })
    &&& (match min { Some(m) => value >= m, None => true })
    &&& (match exclusive_max { Some(m) => value < m, None => true })
    &&& (match exclusive_min { Some(m) => value > m, None => true })
}

/// `ValidateRange::validate_range` on an integer: false when the value is
/// above `max`, below `min`, not below `exclusive_max` or not above
/// `exclusive_min`; true otherwise.
#[verifier::external_body]
fn validate_range_of(value: i64, min: Option<i64>, max: Option<i64>, exclusive_min: Option<i64>, exclusive_max: Option<i64>) -> (ok: bool)
    ensures
        ok == range_within(value, min, max, exclusive_min, exclusive_max),
{
    value.validate_range(min, max, exclusive_min, exclusive_max)
}

/// The `range` rule on an integer.
pub fn range_ok(value: i64, min: Option<i64>, max: Option<i64>, exclusive_min: Option<i64>, exclusive_max: Option<i64>) -> (ok: bool)
    ensures
        ok == range_within(value, min, max, exclusive_min, exclusive_max),
{
    validate_range_of(value, min, max, exclusive_min, exclusive_max)
}

/// `ValidateRequired::validate_required` on an `Option`: whether it holds
/// a value.
#[verifier::external_body]
fn validate_required_of<T>(value: &Option<T>) -> (ok: bool)
    ensures
        ok == value is Some,
{
    value.validate_required()
}

/// The `required` rule: the value is present.
pub fn required_ok<T>(value: &Option<T>) -> (ok: bool)
    ensures
        ok == value is Some,
{
    validate_required_of(value)
}

#[verifier::external_type_specification]
#[verifier::external_body]
pub struct ExRegex(regex::Regex);

#[verifier::external_type_specification]
#[verifier::external_body]
pub struct ExRegexError(regex::Error);

/// Whether `regex` accepts `pattern` as a regular expression (within its
/// default size limits).
pub uninterp spec fn pattern_compiles(pattern: Seq<char>) -> bool;

/// Whether the regular expression `pattern` matches somewhere in `text`.
pub uninterp spec fn pattern_matches(pattern: Seq<char>, text: Seq<char>) -> bool;

/// `regex::Regex::new`: compiles `pattern`, or says why it cannot. Whether
/// it succeeds is named by `pattern_compiles`.
#[verifier::external_body]
fn compile_regex(pattern: &str) -> (r: Result<regex::Regex, regex::Error>)
    ensures
        r is Ok == pattern_compiles(pattern@),
{
    regex::Regex::new(pattern)
}

/// A regular expression together with the pattern it was compiled from.
#[derive(Debug)]
pub struct Pattern {
    source: String,
    regex: regex::Regex,
}

/// A pattern that does not compile.
#[derive(Debug)]
pub struct InvalidPattern {
    pub pattern: String,
}

impl Pattern {
    /// The text the pattern was compiled from.
    pub closed spec fn source(&self) -> Seq<char> {
        self.source@
    }

    /// Compiles `pattern`; refused exactly when `regex` does not accept it.
    pub fn new(pattern: &str) -> (r: Result<Pattern, InvalidPattern>)
        ensures
            match r {
                Ok(p) => pattern_compiles(pattern@) && p.source() == pattern@,
                Err(e) => !pattern_compiles(pattern@) && e.pattern@ == pattern@,
            },
    {
        match compile_regex(pattern) {
            Ok(regex) => Ok(Pattern { source: owned(pattern), regex }),
            Err(_) => Err(InvalidPattern { pattern: owned(pattern) }),
        }
    }
}

/// `ValidateRegex::validate_regex` on a string: whether the pattern's
/// regular expression, compiled from its source by `Pattern::new`,
/// matches somewhere in `value`.
#[verifier::external_body]
fn validate_regex_of(value: &str, pattern: &Pattern) -> (ok: bool)
    ensures
        ok == pattern_matches(pattern.source(), value@),
{
    value.validate_regex(&pattern.regex)
}

/// The `regex` rule: the pattern matches somewhere in the value.
pub fn regex_ok(value: &str, pattern: &Pattern) -> (ok: bool)
    ensures
        ok == pattern_matches(pattern.source(), value@),
{
    validate_regex_of(value, pattern)
}

/// The first error reported for one field.
#[derive(Debug)]
pub struct FieldError {
    pub field: String,
    pub code: String,
    pub message: Option<String>,
}

/// The message a field error shows: its message, else its code.
pub open spec fn shown_message(e: &FieldError) -> Seq<char> {
    match e.message {
        Some(m) => m@,
        None => e.code@,
    }
}

pub open spec fn fields_of(errors: Seq<FieldError>) -> Seq<(Seq<char>, Seq<char>)>
    decreases errors.len(),
{
    if errors.len() == 0 {
        seq![]
    } else {
        let e = errors.last();
        crate::schema::named::insert_entry(fields_of(errors.drop_last()), e.field@, shown_message(&e))
    }
}

/// The `fields` object of a rejection: field name to message, by name.
#[verifier::loop_isolation(false)]
pub fn rejection_fields(errors: &Vec<FieldError>) -> (fields: NamedMap<String>)
    ensures
        fields@ == fields_of(errors@),
{
    let mut fields: NamedMap<String> = NamedMap::new();
    let mut i: usize = 0;
    while i < errors.len()
        invariant
            i <= errors.len(),
            fields@ == fields_of(errors@.take(i as int)),
        decreases errors.len() - i,
    {
        let e = &errors[i];
        let message = match &e.message {
            Some(m) => m.clone(),
            None => e.code.clone(),
        };
        fields.insert(e.field.clone(), message);
        assert(errors@.take(i + 1).drop_last() =~= errors@.take(i as int));
        i = i + 1;
    }
    assert(errors@.take(errors.len() as int) =~= errors@);
    fields
}

/// The `error` summary of a rejection: `validation failed`, or `invalid`
/// and the failing field names in order.
pub open spec fn rejection_text(fields: Seq<(Seq<char>, Seq<char>)>) -> Seq<char> {
    if fields.len() == 0 { "validation failed"@ } else { "invalid "@ + join(keys_of(fields), ", "@) }
}

pub fn rejection_summary(fields: &NamedMap<String>) -> (summary: String)
    ensures
        summary@ == rejection_text(fields@),
{
    if fields.len() == 0 {
        return owned("validation failed");
    }
    let mut names: Vec<String> = Vec::new();
    let mut i: usize = 0;
    while i < fields.len()
        invariant
            i <= fields@.len(),
            names@.map_values(|p: String| p@) == keys_of(fields@).take(i as int),
        decreases fields@.len() - i,
    {
        let ghost before = names@;
        names.push(fields.key_at(i).clone());
        assert(names@.map_values(|p: String| p@) =~= before.map_values(|p: String| p@).push(fields@[i as int].0));
        assert(names@.map_values(|p: String| p@) =~= keys_of(fields@).take(i + 1));
        i = i + 1;
    }
    assert(keys_of(fields@).take(fields@.len() as int) =~= keys_of(fields@));
    let joined = join_strings(&names, ", ");
    concat2("invalid ", joined.as_str())
}

} // verus!
