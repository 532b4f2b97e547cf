use orm::migrate::defaults::{defaults_equivalent, normalize_default, strip_casts};

#[test]
fn postgres_default_spellings_compare_equally() {
    assert!(defaults_equivalent(Some("false"), Some("'false'")));
    assert!(defaults_equivalent(Some("0"), Some("'0'")));
    assert!(defaults_equivalent(Some("'[]'"), Some("'[]'::jsonb")));
    assert!(defaults_equivalent(Some("'{}'"), Some("'{}'::jsonb")));
}

#[test]
fn defaults_differ_when_only_one_is_present() {
    assert!(defaults_equivalent(None, None));
    assert!(!defaults_equivalent(Some("0"), None));
    assert!(!defaults_equivalent(None, Some("0")));
    assert!(!defaults_equivalent(Some("'live'"), Some("'ended'")));
}

#[test]
fn casts_are_stripped_with_their_type_names() {
    assert_eq!(strip_casts("'a'::text"), "'a'");
    assert_eq!(strip_casts("nextval('s'::regclass)"), "nextval('s')");
    assert_eq!(strip_casts("'x::y'"), "'x'");
    assert_eq!(strip_casts("now()::timestamp with time zone"), "now()");
}

#[test]
fn quoted_numbers_and_booleans_lose_their_quotes() {
    assert_eq!(normalize_default("'1.5'::numeric"), "1.5");
    assert_eq!(normalize_default("'true'"), "true");
    assert_eq!(normalize_default("  'live'  "), "'live'");
    assert_eq!(normalize_default("'-2e3'"), "-2e3");
}

#[test]
fn equivalence_is_symmetric_and_transitive_on_examples() {
    let spellings = [Some("0"), Some("'0'"), Some("'0'::integer")];
    for a in spellings {
        for b in spellings {
            assert!(defaults_equivalent(a, b));
            assert_eq!(defaults_equivalent(a, b), defaults_equivalent(b, a));
        }
    }
}

#[test]
fn a_cast_ends_where_the_type_name_ends() {
    assert_eq!(strip_casts("'web'::text"), "'web'");
    assert_eq!(strip_casts("'web'::text || 'x'"), "'web'|| 'x'");
    assert_eq!(strip_casts("plain"), "plain");
}
