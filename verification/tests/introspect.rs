use orm::schema::introspect::{
    apply_column_rows, apply_constraint_rows, apply_enum_rows, apply_index_rows, apply_view_rows, referential_action,
    rust_enum_name, ColumnRow, ConstraintRow, EnumRow, IndexRow, ViewRow,
};
use orm::schema::{ConstraintKind, DatabaseSchema, ReferentialAction};

fn column_row(table: &str, column: &str, nullable: &str, default: Option<&str>, udt: (&str, &str)) -> ColumnRow {
    ColumnRow {
        schema_name: "app".into(),
        table_name: table.into(),
        column_name: column.into(),
        is_nullable: nullable.into(),
        column_default: default.map(str::to_string),
        udt_schema: udt.0.into(),
        udt_name: udt.1.into(),
    }
}

fn constraint_row(name: &str, kind: &str, columns: &[&str]) -> ConstraintRow {
    ConstraintRow {
        schema_name: "app".into(),
        table_name: "orders".into(),
        constraint_name: name.into(),
        constraint_type: kind.into(),
        columns: columns.iter().map(|c| c.to_string()).collect(),
        foreign_schema: String::new(),
        foreign_table: String::new(),
        foreign_columns: Vec::new(),
        on_update: "a".into(),
        on_delete: "a".into(),
        check_expression: None,
    }
}

fn orders() -> DatabaseSchema {
    let mut database = DatabaseSchema::default();
    apply_column_rows(
        &mut database,
        &vec![
            column_row("orders", "id", "NO", Some("gen_random_uuid()"), ("pg_catalog", "uuid")),
            column_row("orders", "paid", "NO", Some("false"), ("pg_catalog", "bool")),
            column_row("orders", "ratio", "YES", None, ("pg_catalog", "float8")),
            column_row("orders", "code", "NO", Some("'web'::text"), ("pg_catalog", "text")),
            column_row("orders", "status", "NO", None, ("app", "status")),
            column_row("orders", "customer_id", "NO", None, ("pg_catalog", "uuid")),
        ],
    );
    database
}

#[test]
fn enum_labels_collect_in_order() {
    let mut database = DatabaseSchema::default();
    let row = |name: &str, label: &str| EnumRow { schema_name: "app".into(), enum_name: name.into(), label: label.into() };
    apply_enum_rows(&mut database, &vec![row("status", "live"), row("status", "ended"), row("kind", "a")]);
    assert_eq!(database.enums.len(), 2);
    let status = database.enums.get("app.status").unwrap();
    assert_eq!(status.name, "app.status");
    assert_eq!(status.values, vec!["live".to_string(), "ended".to_string()]);
}

#[test]
fn columns_use_the_declared_spelling() {
    let database = orders();
    let table = database.tables.get("app.orders").unwrap();
    assert_eq!(table.schema, "app");
    assert_eq!(table.name, "orders");
    assert_eq!(table.columns.len(), 6);
    assert_eq!(table.column("paid").unwrap().sql_type, "boolean");
    assert_eq!(table.column("ratio").unwrap().sql_type, "double precision");
    assert!(table.column("ratio").unwrap().nullable);
    assert!(!table.column("id").unwrap().nullable);
    assert_eq!(table.column("code").unwrap().default.as_deref(), Some("'web'"));
    assert_eq!(table.column("status").unwrap().sql_type, "app.status");
    assert_eq!(rust_enum_name("float4"), "real");
    assert_eq!(rust_enum_name("int8"), "int8");
}

#[test]
fn constraints_land_on_columns_or_the_table() {
    let mut database = orders();
    let mut foreign = constraint_row("orders_customer_id_fkey", "f", &["customer_id"]);
    foreign.foreign_schema = "app".into();
    foreign.foreign_table = "customers".into();
    foreign.foreign_columns = vec!["id".into()];
    foreign.on_delete = "c".into();
    let mut check = constraint_row("orders_code_check", "c", &["code"]);
    check.check_expression = Some("(length(code) > 0)".into());
    apply_constraint_rows(
        &mut database,
        &vec![
            constraint_row("orders_pkey", "p", &["id"]),
            constraint_row("orders_code_key", "u", &["code"]),
            constraint_row("orders_pair", "u", &["code", "status"]),
            foreign,
            check,
            constraint_row("elsewhere_pkey", "p", &["id"]),
        ],
    );
    let table = database.tables.get("app.orders").unwrap();
    assert!(table.column("id").unwrap().primary_key);
    assert!(table.column("code").unwrap().unique);
    let fk = table.column("customer_id").unwrap().foreign_key.as_ref().unwrap();
    assert_eq!((fk.schema.as_str(), fk.table.as_str(), fk.column.as_str()), ("app", "customers", "id"));
    assert_eq!(fk.on_delete, ReferentialAction::Cascade);
    assert_eq!(fk.on_update, ReferentialAction::NoAction);
    assert_eq!(table.constraints.len(), 2);
    assert!(matches!(&table.constraint("orders_pair").unwrap().kind, ConstraintKind::Unique { columns } if columns.len() == 2));
    assert!(matches!(
        &table.constraint("orders_code_check").unwrap().kind,
        ConstraintKind::Check { expression } if expression == "(length(code) > 0)"
    ));
}

#[test]
fn referential_codes() {
    assert_eq!(referential_action("r"), ReferentialAction::Restrict);
    assert_eq!(referential_action("c"), ReferentialAction::Cascade);
    assert_eq!(referential_action("n"), ReferentialAction::SetNull);
    assert_eq!(referential_action("d"), ReferentialAction::SetDefault);
    assert_eq!(referential_action("a"), ReferentialAction::NoAction);
}

#[test]
fn standalone_indexes_need_columns() {
    let mut database = orders();
    let row = |name: &str, columns: &[&str], predicate: Option<&str>| IndexRow {
        schema_name: "app".into(),
        table_name: "orders".into(),
        index_name: name.into(),
        is_unique: predicate.is_some(),
        columns: columns.iter().map(|c| c.to_string()).collect(),
        predicate: predicate.map(str::to_string),
    };
    apply_index_rows(
        &mut database,
        &vec![row("orders_paid_idx", &["paid"], Some("(paid = true)")), row("orders_expr_idx", &[], None)],
    );
    let table = database.tables.get("app.orders").unwrap();
    assert_eq!(table.indexes.len(), 1);
    let index = table.index("orders_paid_idx").unwrap();
    assert!(index.unique);
    assert_eq!(index.predicate.as_deref(), Some("(paid = true)"));
}

#[test]
fn views_are_keyed_by_qualified_name() {
    let mut database = DatabaseSchema::default();
    apply_view_rows(
        &mut database,
        &vec![ViewRow { schema_name: "app".into(), view_name: "one".into(), definition: " SELECT 1 AS value;".into() }],
    );
    let view = database.views.get("app.one").unwrap();
    assert_eq!(view.schema, "app");
    assert_eq!(view.name, "one");
    assert!(view.definition.contains("SELECT"));
}
