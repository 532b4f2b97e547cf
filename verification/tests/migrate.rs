use orm::cli::{language, Language};
use orm::migrate::history::{
    check_history, drift_action, migration_states, pending_migrations, DriftAction, HistoryError, MigrationState,
};
use orm::migrate::prompt::{column_rename_question, is_yes, table_rename_question};
use orm::migrate::store::{migration_stems, next_version, slugify, stem_name, version_of, MigrationStore};
use orm::schema::TableReference;
use orm::seed::{seed_file_name, seed_script, seed_stems};

fn strings(items: &[&str]) -> Vec<String> {
    items.iter().map(|item| item.to_string()).collect()
}

#[test]
fn version_is_read_from_the_stem_prefix() {
    assert_eq!(version_of("0012_add_users"), 12);
    assert_eq!(version_of("0003"), 3);
    assert_eq!(version_of("init_schema"), 0);
    assert_eq!(version_of("99999999999_too_big"), 0);
}

#[test]
fn slugs_keep_lowercased_ascii_letters_and_digits() {
    assert_eq!(slugify("Add Users!"), "add_users_");
    assert_eq!(slugify("v2-Index"), "v2_index");
    assert_eq!(slugify("café"), "caf_");
}

#[test]
fn stems_are_padded_to_four_digits() {
    assert_eq!(stem_name(7, "Add users"), "0007_add_users");
    assert_eq!(stem_name(12345, "big"), "12345_big");
    assert_eq!(version_of(&stem_name(42, "anything at all")), 42);
}

#[test]
fn migration_stems_keep_up_files_in_version_order() {
    let names = strings(&["0002_b.up.sql", "0001_a.down.sql", "0001_a.up.sql", "meta", "notes.txt", "0010_c.up.sql"]);
    assert_eq!(migration_stems(&names), strings(&["0001_a", "0002_b", "0010_c"]));

    let same_version = strings(&["0002_x.up.sql", "0002_a.up.sql"]);
    assert_eq!(migration_stems(&same_version), strings(&["0002_x", "0002_a"]));
}

#[test]
fn next_version_follows_the_largest() {
    assert_eq!(next_version(&strings(&["0001_a", "0005_b", "0003_c"])), 6);
    assert_eq!(next_version(&Vec::new()), 1);
}

#[test]
fn store_paths_sit_inside_the_directory() {
    let store = MigrationStore::new("migrations");
    assert_eq!(store.up_path("0001_init"), "migrations/0001_init.up.sql");
    assert_eq!(store.down_path("0001_init"), "migrations/0001_init.down.sql");
    assert_eq!(store.snapshot_path(3), "migrations/meta/0003.json");
    assert_eq!(MigrationStore::tip(&strings(&["0001_a", "0002_b"])), Some("0002_b".to_string()));
    assert_eq!(MigrationStore::tip(&Vec::new()), None);
}

#[test]
fn history_counts_the_applied_prefix() {
    let stems = strings(&["0001_a", "0002_b", "0003_c"]);
    assert!(matches!(check_history(&stems, &strings(&["0001_a", "0002_b"])), Ok(2)));
    assert!(matches!(check_history(&stems, &Vec::new()), Ok(0)));
}

#[test]
fn history_refuses_unknown_migrations() {
    let stems = strings(&["0001_a", "0002_b"]);
    let error = check_history(&stems, &strings(&["0001_a", "0009_x", "0008_y"])).unwrap_err();
    match &error {
        HistoryError::UnknownApplied(unknown) => assert_eq!(unknown, &strings(&["0009_x", "0008_y"])),
        HistoryError::Gap => panic!("expected unknown migrations"),
    }
    assert_eq!(error.message(), "database contains migration(s) absent from the repository: 0009_x, 0008_y");
}

#[test]
fn history_refuses_a_gap() {
    let stems = strings(&["0001_a", "0002_b", "0003_c"]);
    let error = check_history(&stems, &strings(&["0001_a", "0003_c"])).unwrap_err();
    assert!(matches!(error, HistoryError::Gap));
    assert_eq!(error.message(), "database migration history contains a gap; applied migrations must be a prefix");
}

#[test]
fn an_admitted_history_leaves_the_rest_pending() {
    let stems = strings(&["0001_a", "0002_b", "0003_c"]);
    let applied = strings(&["0001_a"]);
    assert!(matches!(check_history(&stems, &applied), Ok(1)));
    assert_eq!(pending_migrations(&stems, &applied), strings(&["0002_b", "0003_c"]));
}

#[test]
fn pending_migrations_are_the_unapplied_ones_in_order() {
    let stems = strings(&["0001_a", "0002_b", "0003_c"]);
    assert_eq!(pending_migrations(&stems, &strings(&["0002_b"])), strings(&["0001_a", "0003_c"]));
    assert!(pending_migrations(&stems, &stems).is_empty());
}

#[test]
fn drift_outcomes() {
    assert!(matches!(drift_action(true, true, None), DriftAction::InSync));
    assert!(matches!(drift_action(false, true, None), DriftAction::Refuse));
    assert!(matches!(drift_action(false, false, None), DriftAction::Print));
    match drift_action(false, true, Some("reconcile".to_string())) {
        DriftAction::Write(name) => assert_eq!(name, "reconcile"),
        other => panic!("unexpected {other:?}"),
    }
}

#[test]
fn answers_read_as_yes_only_when_they_say_so() {
    assert!(is_yes("y"));
    assert!(is_yes("  YES \n"));
    assert!(!is_yes(""));
    assert!(!is_yes("no"));
    assert!(!is_yes("yess"));
}

#[test]
fn rename_questions_name_both_sides() {
    assert_eq!(table_rename_question("public", "users", "accounts"), "Rename table public.users to public.accounts?");
    let table = TableReference { schema: "public".to_string(), name: "users".to_string() };
    assert_eq!(
        column_rename_question(&table, "mail", "email"),
        "Rename column public.users.mail to public.users.email?"
    );
}

#[test]
fn seeds_are_sql_files_in_version_order() {
    let names = strings(&["0002_more.sql", "0001_demo.sql", "README.md"]);
    assert_eq!(seed_stems(&names), strings(&["0001_demo", "0002_more"]));
    assert_eq!(seed_file_name(3, "Demo Users"), "0003_demo_users.sql");
    assert_eq!(
        seed_script("demo"),
        "-- Seed: demo\n-- Applied once and recorded in _orm_seeds. Keep the inserts idempotent\n-- anyway (ON CONFLICT DO NOTHING) so re-running is always safe.\n\n"
    );
}

#[test]
fn only_typescript_can_be_generated() {
    assert_eq!(language("ts"), Ok(Language::TypeScript));
    assert_eq!(language("typescript"), Ok(Language::TypeScript));
    assert_eq!(language("rust"), Err("unsupported language: rust (supported: ts)".to_string()));
}

#[test]
fn status_marks_each_stem_applied_or_pending() {
    let stems = vec!["0001_a".to_string(), "0002_b".to_string(), "0003_c".to_string()];
    let applied = vec!["0001_a".to_string()];
    assert_eq!(
        migration_states(&stems, Some(&applied)),
        vec![MigrationState::Applied, MigrationState::Pending, MigrationState::Pending]
    );
    assert_eq!(migration_states(&stems, None), vec![MigrationState::Unknown; 3]);
    assert_eq!(pending_migrations(&stems, &applied), vec!["0002_b".to_string(), "0003_c".to_string()]);
}
