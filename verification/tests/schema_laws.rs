use orm::schema::change::SchemaChange;
use orm::schema::diff::{diff, NoRenames, RenameQuestion, RenameResolver};
use orm::schema::invert::invert;
use orm::schema::sql::render;
use orm::schema::{
    Column, Constraint, ConstraintKind, DatabaseSchema, EnumType, ForeignKey, Index, ReferentialAction, SqlView,
    Table, TableReference,
};

struct YesToAll;

impl RenameResolver for YesToAll {
    fn declines_all(&self) -> bool {
        false
    }

    fn answered(self, _question: RenameQuestion) -> Self {
        self
    }

    fn confirm_table_rename(&mut self, _schema: &str, _from: &str, _to: &str) -> bool {
        true
    }

    fn confirm_column_rename(&mut self, _table: &TableReference, _from: &str, _to: &str) -> bool {
        true
    }
}

fn col(name: &str, sql_type: &str) -> Column {
    Column {
        name: name.into(),
        sql_type: sql_type.into(),
        nullable: false,
        primary_key: false,
        unique: false,
        default: None,
        foreign_key: None,
    }
}

fn table(schema: &str, name: &str, columns: Vec<Column>) -> Table {
    Table { schema: schema.into(), name: name.into(), columns, ..Default::default() }
}

fn schema_of(tables: Vec<Table>) -> DatabaseSchema {
    let mut database = DatabaseSchema::default();
    for t in tables {
        database.tables.insert(t.qualified_name(), t);
    }
    database
}

fn reference_to(schema: &str, table: &str) -> Option<ForeignKey> {
    Some(ForeignKey {
        schema: schema.into(),
        table: table.into(),
        column: "id".into(),
        on_update: ReferentialAction::NoAction,
        on_delete: ReferentialAction::Restrict,
    })
}

fn rich_schema() -> DatabaseSchema {
    let users = Table {
        constraints: vec![Constraint {
            name: "users_handle_len".into(),
            kind: ConstraintKind::Check { expression: "length(handle) > 2".into() },
        }],
        indexes: vec![Index {
            name: "users_live_idx".into(),
            columns: vec!["handle".into()],
            unique: true,
            predicate: Some("status = 'live'".into()),
        }],
        ..table(
            "app",
            "users",
            vec![
                Column { primary_key: true, ..col("id", "uuid") },
                Column { unique: true, default: Some("'anon'".into()), ..col("handle", "text") },
                col("status", "app.status"),
            ],
        )
    };
    let posts = table(
        "app",
        "posts",
        vec![col("id", "uuid"), Column { foreign_key: reference_to("app", "users"), ..col("author_id", "uuid") }],
    );
    let mut database = schema_of(vec![users, posts]);
    database.enums.insert("app.status".into(), EnumType { name: "app.status".into(), values: vec!["live".into()] });
    let view = SqlView { schema: "app".into(), name: "handles".into(), definition: "SELECT handle FROM app.users".into() };
    database.views.insert(view.qualified_name(), view);
    database
}

#[test]
fn a_schema_diffed_against_itself_has_no_changes() {
    let s = rich_schema();
    assert!(diff(&s, &s, &mut NoRenames).is_empty());
    assert!(diff(&s, &s, &mut YesToAll).is_empty());
}

#[test]
fn a_fresh_schema_is_created_in_dependency_order() {
    let sql = render(&diff(&DatabaseSchema::default(), &rich_schema(), &mut NoRenames));
    let schema = sql.find("CREATE SCHEMA IF NOT EXISTS app;").expect("schema created");
    let status = sql.find("CREATE TYPE app.status AS ENUM ('live');").expect("enum created");
    let users = sql.find("CREATE TABLE app.users (").expect("users created");
    let posts = sql.find("CREATE TABLE app.posts (").expect("posts created");
    let index = sql.find("CREATE UNIQUE INDEX users_live_idx ON app.users (handle) WHERE status = 'live';").expect("index");
    let view = sql.find("CREATE VIEW app.handles AS SELECT handle FROM app.users;").expect("view created");
    assert!(schema < status && status < users && users < posts && posts < index && index < view, "{sql}");
}

#[test]
fn a_confirmed_rename_keeps_the_column() {
    let baseline = schema_of(vec![table("public", "users", vec![col("id", "uuid"), col("mail", "text")])]);
    let desired = schema_of(vec![table("public", "users", vec![col("id", "uuid"), col("email", "text")])]);

    let renamed = render(&diff(&baseline, &desired, &mut YesToAll));
    assert_eq!(renamed.trim(), "ALTER TABLE public.users RENAME COLUMN mail TO email;");

    let replaced = render(&diff(&baseline, &desired, &mut NoRenames));
    assert_eq!(
        replaced.trim(),
        "ALTER TABLE public.users ADD COLUMN email text NOT NULL;\n\nALTER TABLE public.users DROP COLUMN mail;"
    );
}

#[test]
fn a_confirmed_table_rename_is_undone_by_its_inverse() {
    let baseline = schema_of(vec![table("public", "people", vec![col("id", "uuid")])]);
    let desired = schema_of(vec![table("public", "users", vec![col("id", "uuid")])]);
    let changes = diff(&baseline, &desired, &mut YesToAll);
    assert_eq!(render(&changes).trim(), "ALTER TABLE public.people RENAME TO users;");
    assert_eq!(render(&invert(&changes, &baseline)).trim(), "ALTER TABLE public.users RENAME TO people;");
}

#[test]
fn undoing_a_sequence_undoes_it_backwards() {
    let empty = DatabaseSchema::default();
    let one = schema_of(vec![table("public", "widgets", vec![col("id", "uuid")])]);
    let two = schema_of(vec![table("public", "widgets", vec![col("id", "uuid"), col("name", "text")])]);
    let mut changes = diff(&empty, &one, &mut NoRenames);
    changes.extend(diff(&one, &two, &mut NoRenames));

    let down = render(&invert(&changes, &empty));
    let drop_column = down.find("ALTER TABLE public.widgets DROP COLUMN name;").expect("column dropped");
    let drop_table = down.find("DROP TABLE public.widgets CASCADE;").expect("table dropped");
    assert!(drop_column < drop_table, "{down}");
}

#[test]
fn changed_constraints_and_views_are_dropped_and_recreated() {
    let baseline = rich_schema();
    let mut desired = rich_schema();
    let mut users = desired.tables.get("app.users").unwrap().clone();
    users.constraints[0].kind = ConstraintKind::Check { expression: "length(handle) > 3".into() };
    desired.tables.insert("app.users".into(), users);
    let view = SqlView { schema: "app".into(), name: "handles".into(), definition: "SELECT id FROM app.users".into() };
    desired.views.insert(view.qualified_name(), view);

    let sql = render(&diff(&baseline, &desired, &mut NoRenames));
    let drop_view = sql.find("DROP VIEW IF EXISTS app.handles;").expect("view dropped");
    let drop_check = sql.find("ALTER TABLE app.users DROP CONSTRAINT users_handle_len;").expect("check dropped");
    let add_check = sql
        .find("ALTER TABLE app.users ADD CONSTRAINT users_handle_len CHECK (length(handle) > 3);")
        .expect("check added");
    let create_view = sql.find("CREATE VIEW app.handles AS SELECT id FROM app.users;").expect("view created");
    assert!(drop_view < drop_check && drop_check < add_check && add_check < create_view, "{sql}");
}

#[test]
fn tables_in_a_reference_cycle_keep_their_order_after_the_rest() {
    let a = table("public", "a", vec![col("id", "uuid"), Column { foreign_key: reference_to("public", "b"), ..col("b_id", "uuid") }]);
    let b = table("public", "b", vec![col("id", "uuid"), Column { foreign_key: reference_to("public", "a"), ..col("a_id", "uuid") }]);
    let c = table("public", "c", vec![col("id", "uuid")]);
    let sql = render(&diff(&DatabaseSchema::default(), &schema_of(vec![a, b, c]), &mut NoRenames));
    let a_at = sql.find("CREATE TABLE public.a (").expect("a created");
    let b_at = sql.find("CREATE TABLE public.b (").expect("b created");
    let c_at = sql.find("CREATE TABLE public.c (").expect("c created");
    assert!(c_at < a_at && a_at < b_at, "{sql}");
}

#[test]
fn a_self_reference_imposes_no_order() {
    let tree = table("public", "nodes", vec![col("id", "uuid"), Column { foreign_key: reference_to("public", "nodes"), ..col("parent_id", "uuid") }]);
    let leaf = table("public", "leaves", vec![col("id", "uuid"), Column { foreign_key: reference_to("public", "nodes"), ..col("node_id", "uuid") }]);
    let sql = render(&diff(&DatabaseSchema::default(), &schema_of(vec![tree, leaf]), &mut NoRenames));
    let nodes = sql.find("CREATE TABLE public.nodes (").expect("nodes created");
    let leaves = sql.find("CREATE TABLE public.leaves (").expect("leaves created");
    assert!(nodes < leaves, "{sql}");
}

#[test]
fn undoing_an_undo_gives_the_change_back() {
    let empty = DatabaseSchema::default();
    let changes = vec![
        SchemaChange::CreateSchema("app".into()),
        SchemaChange::RenameTable {
            table: TableReference { schema: "app".into(), name: "people".into() },
            to: "users".into(),
        },
    ];
    let once = invert(&changes, &empty);
    assert_eq!(render(&once), "ALTER TABLE app.users RENAME TO people;\n\nDROP SCHEMA IF EXISTS app;\n");
    let twice = invert(&once, &rich_schema());
    assert_eq!(render(&twice), render(&changes));
}

/// Agrees only to renaming a table or column named `pick`.
struct OnlyFrom {
    pick: &'static str,
}

impl RenameResolver for OnlyFrom {
    fn declines_all(&self) -> bool {
        false
    }

    fn answered(self, _question: RenameQuestion) -> Self {
        self
    }

    fn confirm_table_rename(&mut self, _schema: &str, from: &str, _to: &str) -> bool {
        from == self.pick
    }

    fn confirm_column_rename(&mut self, _table: &TableReference, from: &str, _to: &str) -> bool {
        from == self.pick
    }
}

#[test]
fn a_created_table_takes_the_dropped_table_the_resolver_confirms() {
    let baseline = schema_of(vec![table("public", "a", vec![col("id", "uuid")]), table("public", "b", vec![col("id", "uuid")])]);
    let desired = schema_of(vec![table("public", "c", vec![col("id", "uuid")])]);
    let sql = render(&diff(&baseline, &desired, &mut OnlyFrom { pick: "b" }));
    assert_eq!(sql.trim(), "DROP TABLE public.a CASCADE;\n\nALTER TABLE public.b RENAME TO c;");
}

#[test]
fn an_added_column_takes_the_removed_column_of_its_type_the_resolver_confirms() {
    let baseline = schema_of(vec![table("public", "t", vec![col("x", "int4"), col("y", "text"), col("z", "text")])]);
    let desired = schema_of(vec![table("public", "t", vec![col("w", "text")])]);
    let sql = render(&diff(&baseline, &desired, &mut OnlyFrom { pick: "z" }));
    assert_eq!(
        sql.trim(),
        "ALTER TABLE public.t RENAME COLUMN z TO w;\n\nALTER TABLE public.t DROP COLUMN x;\n\nALTER TABLE public.t DROP COLUMN y;"
    );
}

/// Keeps every question it is asked, with its answer; agrees only to
/// renaming a table or column named `pick`.
struct Recorder {
    pick: Option<&'static str>,
    asked: Vec<String>,
}

impl Recorder {
    fn new(pick: Option<&'static str>) -> Recorder {
        Recorder { pick, asked: Vec::new() }
    }
}

impl RenameResolver for Recorder {
    fn declines_all(&self) -> bool {
        false
    }

    fn answered(self, _question: RenameQuestion) -> Self {
        self
    }

    fn confirm_table_rename(&mut self, schema: &str, from: &str, to: &str) -> bool {
        let yes = self.pick == Some(from);
        self.asked.push(format!("table {schema}.{from} -> {to}: {yes}"));
        yes
    }

    fn confirm_column_rename(&mut self, table: &TableReference, from: &str, to: &str) -> bool {
        let yes = self.pick == Some(from);
        self.asked.push(format!("column {}.{} {from} -> {to}: {yes}", table.schema, table.name));
        yes
    }
}

#[test]
fn identical_schemas_ask_the_resolver_nothing() {
    let schema = rich_schema();
    let mut recorder = Recorder::new(Some("id"));
    assert!(diff(&schema, &schema, &mut recorder).is_empty());
    assert!(recorder.asked.is_empty());
}

#[test]
fn each_dropped_table_of_the_schema_is_asked_about_until_a_yes() {
    let baseline = schema_of(vec![table("public", "a", vec![col("id", "uuid")]), table("public", "b", vec![col("id", "uuid")])]);
    let desired = schema_of(vec![table("public", "c", vec![col("id", "uuid")])]);
    let mut recorder = Recorder::new(Some("b"));
    diff(&baseline, &desired, &mut recorder);
    assert_eq!(recorder.asked, vec!["table public.a -> c: false".to_string(), "table public.b -> c: true".to_string()]);
}

#[test]
fn only_removed_columns_of_the_added_columns_type_are_asked_about() {
    let baseline = schema_of(vec![table("public", "t", vec![col("x", "int4"), col("y", "text"), col("z", "text")])]);
    let desired = schema_of(vec![table("public", "t", vec![col("w", "text")])]);
    let mut recorder = Recorder::new(Some("z"));
    diff(&baseline, &desired, &mut recorder);
    assert_eq!(
        recorder.asked,
        vec!["column public.t y -> w: false".to_string(), "column public.t z -> w: true".to_string()]
    );
}

#[test]
fn a_resolver_that_only_answers_no_gets_drops_and_creates() {
    let baseline = schema_of(vec![table("public", "a", vec![col("id", "uuid")])]);
    let desired = schema_of(vec![table("public", "c", vec![col("id", "uuid")])]);
    let mut recorder = Recorder::new(None);
    let changes = diff(&baseline, &desired, &mut recorder);
    assert_eq!(recorder.asked, vec!["table public.a -> c: false".to_string()]);
    assert!(changes.iter().all(|c| !matches!(c, SchemaChange::RenameTable { .. })));
    assert!(changes.iter().any(|c| matches!(c, SchemaChange::DropTable(_))));
    assert!(changes.iter().any(|c| matches!(c, SchemaChange::CreateTable(_))));
}
