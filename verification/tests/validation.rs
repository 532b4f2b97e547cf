use orm::validate::{
    email_ok, length_ok, range_ok, regex_ok, rejection_fields, rejection_summary, required_ok, FieldError, Pattern,
};

fn error(field: &str, code: &str, message: Option<&str>) -> FieldError {
    FieldError { field: field.into(), code: code.into(), message: message.map(str::to_string) }
}

#[test]
fn length_counts_characters_and_honours_equal() {
    assert!(length_ok("abc", Some(3), Some(30), None));
    assert!(!length_ok("ab", Some(3), Some(30), None));
    assert!(!length_ok(&"x".repeat(31), Some(3), Some(30), None));
    assert!(length_ok("\u{e9}\u{e9}\u{e9}", Some(3), Some(3), None));
    assert!(length_ok("abcd", None, None, Some(4)));
    assert!(!length_ok("abcd", Some(0), Some(10), Some(3)));
}

#[test]
fn email_needs_an_address() {
    assert!(email_ok("ana@example.com"));
    assert!(!email_ok("not-an-email"));
    assert!(!email_ok(""));
    assert!(!email_ok("@example.com"));
}

#[test]
fn a_rejection_lists_each_field_once_with_its_message() {
    let fields = rejection_fields(&vec![
        error("name", "length", Some("too short")),
        error("contact", "email", None),
    ]);
    assert_eq!(fields.len(), 2);
    assert_eq!(fields.key_at(0), "contact");
    assert_eq!(fields.get("contact").unwrap(), "email");
    assert_eq!(fields.get("name").unwrap(), "too short");
    assert_eq!(rejection_summary(&fields), "invalid contact, name");
}

#[test]
fn an_empty_rejection_has_the_generic_summary() {
    let fields = rejection_fields(&Vec::new());
    assert!(fields.is_empty());
    assert_eq!(rejection_summary(&fields), "validation failed");
}

#[test]
fn range_rule_checks_each_given_bound() {
    assert!(range_ok(5, Some(1), Some(100), None, None));
    assert!(range_ok(1, Some(1), Some(100), None, None));
    assert!(range_ok(100, Some(1), Some(100), None, None));
    assert!(!range_ok(0, Some(1), Some(100), None, None));
    assert!(!range_ok(101, Some(1), Some(100), None, None));
    assert!(!range_ok(10, None, None, Some(10), None));
    assert!(!range_ok(10, None, None, None, Some(10)));
    assert!(range_ok(-7, None, None, None, None));
}

#[test]
fn required_rule_wants_a_value() {
    assert!(required_ok(&Some("x")));
    assert!(!required_ok(&None::<i32>));
}

#[test]
fn regex_rule_matches_anywhere_in_the_value() {
    let phone = Pattern::new(r"^\+\d+$").expect("compiles");
    assert!(regex_ok("+4412345", &phone));
    assert!(!regex_ok("4412345", &phone));
    let word = Pattern::new("ana").expect("compiles");
    assert!(regex_ok("banana", &word));
    let broken = Pattern::new("(").unwrap_err();
    assert_eq!(broken.pattern, "(");
}
