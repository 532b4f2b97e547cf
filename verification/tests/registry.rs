use orm::schema::registry::{
    assemble_schema, build_view, ColumnItem, EnumItem, ForeignKeyItem, TableItem, ViewColumnItem, ViewError, ViewItem,
};
use orm::schema::{NamedMap, ReferentialAction, Table};

fn leak<T>(items: Vec<T>) -> &'static [T] {
    Box::leak(items.into_boxed_slice())
}

fn column(name: &'static str, sql_type: &'static str) -> ColumnItem {
    ColumnItem { name, sql_type, nullable: false, primary_key: false, unique: false, default: None, foreign_key: None }
}

fn users() -> TableItem {
    TableItem {
        schema: "public",
        name: "users",
        columns: leak(vec![ColumnItem { primary_key: true, ..column("id", "uuid") }, column("handle", "text")]),
        constraints: leak(vec![]),
        indexes: leak(vec![]),
    }
}

fn posts() -> TableItem {
    let author = ColumnItem {
        foreign_key: Some(ForeignKeyItem {
            schema: "public",
            table: "users",
            column: "id",
            on_update: ReferentialAction::NoAction,
            on_delete: ReferentialAction::Cascade,
        }),
        ..column("author_id", "uuid")
    };
    TableItem {
        schema: "public",
        name: "posts",
        columns: leak(vec![column("id", "uuid"), column("title", "text"), author]),
        constraints: leak(vec![]),
        indexes: leak(vec![]),
    }
}

fn view_column(alias: &'static str, table: &'static str, column: &'static str) -> ViewColumnItem {
    ViewColumnItem { alias, schema: "public", table, column }
}

fn tables(items: &[TableItem]) -> NamedMap<Table> {
    let mut map = NamedMap::new();
    for item in items {
        let table = Table::from(item);
        map.insert(table.qualified_name(), table);
    }
    map
}

#[test]
fn a_view_joins_along_a_foreign_key_either_way() {
    let tables = tables(&[users(), posts()]);
    let item = ViewItem {
        schema: "public",
        name: "post_authors",
        columns: leak(vec![view_column("title", "posts", "title"), view_column("handle", "users", "handle")]),
        filter: Some("posts.title <> ''"),
        order_by: Some("title"),
    };
    let view = build_view(&item, &tables).expect("joinable");
    assert_eq!(view.qualified_name(), "public.post_authors");
    assert_eq!(
        view.definition,
        "SELECT posts.title AS title, users.handle AS handle FROM public.posts \
         JOIN public.users ON posts.author_id = users.id WHERE posts.title <> '' ORDER BY title"
    );

    let reversed = ViewItem {
        schema: "public",
        name: "author_posts",
        columns: leak(vec![view_column("handle", "users", "handle"), view_column("title", "posts", "title")]),
        filter: None,
        order_by: None,
    };
    assert_eq!(
        build_view(&reversed, &tables).expect("joinable").definition,
        "SELECT users.handle AS handle, posts.title AS title FROM public.users JOIN public.posts ON posts.author_id = users.id"
    );
}

#[test]
fn a_view_without_a_link_or_columns_is_refused() {
    let tables = tables(&[users(), posts()]);
    let unlinked = ViewItem {
        schema: "public",
        name: "lonely",
        columns: leak(vec![view_column("handle", "users", "handle"), view_column("x", "other", "x")]),
        filter: None,
        order_by: None,
    };
    let error = build_view(&unlinked, &tables).unwrap_err();
    assert!(matches!(error, ViewError::NoJoin { .. }));
    assert_eq!(
        error.message(),
        "view public.lonely: no foreign key links public.users to public.other \u{2014} declare one to join them"
    );
}

#[test]
fn the_declared_schema_is_assembled_by_name() {
    let status = EnumItem { name: "public.status", values: leak(vec!["live", "ended"]) };
    let users = users();
    let posts = posts();
    let view = ViewItem {
        schema: "public",
        name: "titles",
        columns: leak(vec![view_column("title", "posts", "title")]),
        filter: None,
        order_by: None,
    };
    let schema = assemble_schema(&vec![&status], &vec![&users, &posts], &vec![&view]).expect("assembles");
    assert_eq!(schema.enums.len(), 1);
    assert_eq!(schema.enums.get("public.status").unwrap().values, vec!["live".to_string(), "ended".to_string()]);
    assert_eq!(schema.tables.len(), 2);
    assert_eq!(schema.tables.key_at(0), "public.posts");
    assert_eq!(schema.tables.key_at(1), "public.users");
    let stored_users = schema.tables.get("public.users").unwrap();
    assert!(stored_users.column("id").unwrap().primary_key);
    assert_eq!(schema.views.get("public.titles").unwrap().definition, "SELECT posts.title AS title FROM public.posts");
}
