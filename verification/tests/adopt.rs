use orm::migrate::adopt::{
    adopt_canonical_matches, adopt_declared_spellings, canonical_requests, owned_schemas, CanonicalAnswer,
    CanonicalRequest,
};
use orm::schema::{Column, Constraint, ConstraintKind, DatabaseSchema, EnumType, SqlView, Table};

fn col(name: &str, default: Option<&str>) -> Column {
    Column {
        name: name.into(),
        sql_type: "text".into(),
        nullable: false,
        primary_key: false,
        unique: false,
        default: default.map(str::to_string),
        foreign_key: None,
    }
}

fn with_table(table: Table) -> DatabaseSchema {
    let mut database = DatabaseSchema::default();
    database.tables.insert(table.qualified_name(), table);
    database
}

fn check(name: &str, expression: &str) -> Constraint {
    Constraint { name: name.into(), kind: ConstraintKind::Check { expression: expression.into() } }
}

#[test]
fn owned_schemas_are_distinct_and_sorted() {
    let mut database = DatabaseSchema::default();
    for (schema, name) in [("auth", "users"), ("app", "orders"), ("app", "items")] {
        let table = Table { schema: schema.into(), name: name.into(), ..Default::default() };
        database.tables.insert(table.qualified_name(), table);
    }
    database.enums.insert("billing.kind".into(), EnumType { name: "billing.kind".into(), values: vec![] });
    let view = SqlView { schema: "reports".into(), name: "daily".into(), definition: "SELECT 1".into() };
    database.views.insert(view.qualified_name(), view);
    assert_eq!(owned_schemas(&database), vec!["app", "auth", "billing", "reports"]);
}

#[test]
fn equivalent_defaults_take_the_declared_spelling() {
    let live = Table {
        schema: "app".into(),
        name: "t".into(),
        columns: vec![col("count", Some("'0'::integer")), col("label", Some("'a'::text"))],
        ..Default::default()
    };
    let declared = Table {
        schema: "app".into(),
        name: "t".into(),
        columns: vec![col("count", Some("0")), col("label", Some("'b'"))],
        ..Default::default()
    };
    let mut current = with_table(live);
    adopt_declared_spellings(&mut current, &with_table(declared));
    let table = current.tables.get("app.t").unwrap();
    assert_eq!(table.column("count").unwrap().default.as_deref(), Some("0"));
    assert_eq!(table.column("label").unwrap().default.as_deref(), Some("'a'::text"));
}

#[test]
fn a_column_unique_moves_to_the_declared_constraint() {
    let live = Table {
        schema: "app".into(),
        name: "t".into(),
        columns: vec![Column { unique: true, ..col("code", None) }],
        ..Default::default()
    };
    let unique = Constraint { name: "t_code_unique".into(), kind: ConstraintKind::Unique { columns: vec!["code".into()] } };
    let declared = Table {
        schema: "app".into(),
        name: "t".into(),
        columns: vec![col("code", None)],
        constraints: vec![unique.clone()],
        ..Default::default()
    };
    let mut current = with_table(live);
    adopt_declared_spellings(&mut current, &with_table(declared));
    let table = current.tables.get("app.t").unwrap();
    assert!(!table.column("code").unwrap().unique);
    assert_eq!(table.constraints, vec![unique]);
}

#[test]
fn checks_adopt_the_declared_text_only_when_the_database_agrees() {
    let live = Table {
        schema: "app".into(),
        name: "t".into(),
        constraints: vec![check("positive", "(amount > 0)"), check("short", "(length(code) < 5)")],
        ..Default::default()
    };
    let declared = Table {
        schema: "app".into(),
        name: "t".into(),
        constraints: vec![check("positive", "amount > 0"), check("short", "length(code) < 9")],
        ..Default::default()
    };
    let mut current = with_table(live);
    let desired = with_table(declared);

    let requests = canonical_requests(&current, &desired);
    assert_eq!(requests.len(), 2);
    assert!(requests.iter().any(|request| matches!(
        request,
        CanonicalRequest::Check { schema, table, expression } if schema == "app" && table == "t" && expression == "amount > 0"
    )));

    let answers = vec![
        CanonicalAnswer {
            request: CanonicalRequest::Check { schema: "app".into(), table: "t".into(), expression: "amount > 0".into() },
            canonical: "(amount > 0)".into(),
        },
        CanonicalAnswer {
            request: CanonicalRequest::Check {
                schema: "app".into(),
                table: "t".into(),
                expression: "length(code) < 9".into(),
            },
            canonical: "(length(code) < 9)".into(),
        },
    ];
    adopt_canonical_matches(&mut current, &desired, &answers);
    let table = current.tables.get("app.t").unwrap();
    assert_eq!(table.constraint("positive").unwrap().kind, ConstraintKind::Check { expression: "amount > 0".into() });
    assert_eq!(table.constraint("short").unwrap().kind, ConstraintKind::Check { expression: "(length(code) < 5)".into() });
}

#[test]
fn views_adopt_the_declared_text_only_when_the_database_agrees() {
    let mut current = DatabaseSchema::default();
    let live = SqlView { schema: "app".into(), name: "v".into(), definition: " SELECT t.id FROM app.t;".into() };
    current.views.insert(live.qualified_name(), live.clone());
    let mut desired = DatabaseSchema::default();
    let declared = SqlView { schema: "app".into(), name: "v".into(), definition: "SELECT id FROM app.t".into() };
    desired.views.insert(declared.qualified_name(), declared.clone());

    let requests = canonical_requests(&current, &desired);
    assert!(matches!(&requests[..], [CanonicalRequest::View { definition }] if definition == "SELECT id FROM app.t"));

    let answer = |canonical: &str| CanonicalAnswer {
        request: CanonicalRequest::View { definition: "SELECT id FROM app.t".into() },
        canonical: canonical.into(),
    };
    let mut unchanged = DatabaseSchema::default();
    unchanged.views.insert(live.qualified_name(), live.clone());
    adopt_canonical_matches(&mut unchanged, &desired, &vec![answer(" SELECT other FROM app.t;")]);
    assert_eq!(unchanged.views.get("app.v").unwrap(), &live);

    adopt_canonical_matches(&mut current, &desired, &vec![answer(" SELECT t.id FROM app.t;")]);
    assert_eq!(current.views.get("app.v").unwrap(), &declared);
}
