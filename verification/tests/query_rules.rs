use orm::query::{
    is_identifier, FilterGroup, FilterOp, InsertValues, QueryOptions, Search, SortOrder, SqlValue, UpdateValues,
    WriteError,
};

#[test]
fn identifiers_are_ascii_words() {
    assert!(is_identifier("created_at"));
    assert!(is_identifier("_private"));
    assert!(is_identifier("v2"));
    assert!(!is_identifier(""));
    assert!(!is_identifier("2fast"));
    assert!(!is_identifier("name; drop"));
    assert!(!is_identifier("caf\u{e9}"));
}

#[test]
fn search_fields_are_split_trimmed_and_filtered() {
    let search = Search { query: Some("ana".into()), fields: Some(" name, ,bio ,evil()".into()) };
    assert_eq!(search.field_list(), vec!["name".to_string(), "bio".to_string(), "evil()".to_string()]);

    let options = QueryOptions::new().filter_group(FilterGroup::from_search(search));
    let (sql, next) = options.build_where_clause(4);
    assert_eq!(sql, " WHERE (name ILIKE $4 OR bio ILIKE $5)");
    assert_eq!(next, 6);
    let params = options.filter_params();
    assert_eq!(params.len(), 2);
    assert!(params.iter().all(|value| matches!(value, SqlValue::Text(text) if text == "%ana%")));
}

#[test]
fn a_search_without_a_query_filters_nothing() {
    let search = Search { query: None, fields: Some("name".into()) };
    let (sql, next) = QueryOptions::new().filter_group(FilterGroup::from_search(search)).build_where_clause(1);
    assert_eq!(sql, "");
    assert_eq!(next, 1);
}

#[test]
fn an_absent_optional_value_adds_no_filter() {
    let (sql, next) = QueryOptions::new()
        .filter("name", FilterOp::Eq, None::<String>)
        .filter("bio", FilterOp::Ne, Some("b"))
        .build_where_clause(1);
    assert_eq!(sql, " WHERE bio != $1");
    assert_eq!(next, 2);
}

#[test]
fn sort_order_words() {
    assert_eq!(SortOrder::Asc.as_str(), "ASC");
    assert_eq!(SortOrder::Desc.as_str(), "DESC");
    assert_eq!(SortOrder::default(), SortOrder::Asc);
    assert_eq!(FilterOp::In.as_sql(), "= ANY");
}

#[test]
fn write_errors_name_the_column() {
    let unknown = InsertValues::new().value("secret", true).build(&["name"]).unwrap_err();
    assert!(matches!(&unknown, WriteError::UnknownColumn(column) if column == "secret"));
    assert_eq!(unknown.message(), "unknown write column `secret`");

    let duplicate = InsertValues::new().value("name", "a").value("name", "b").build(&["name"]).unwrap_err();
    assert!(matches!(&duplicate, WriteError::DuplicateColumn(column) if column == "name"));
    assert_eq!(duplicate.message(), "duplicate write column `name`");

    let empty = UpdateValues::new().build(1, &["name"]).unwrap_err();
    assert!(matches!(empty, WriteError::NoValues));
    assert_eq!(empty.message(), "filtered update requires at least one value");
}

#[test]
fn optional_values_bind_null() {
    let values = InsertValues::new().value("note", None::<String>).value("count", Some(3_i32));
    let (columns, marks) = values.build(&["note", "count"]).unwrap();
    assert_eq!(columns, "note, count");
    assert_eq!(marks, "$1, $2");
    let params = values.params();
    assert!(matches!(params[0], SqlValue::Null));
    assert!(matches!(params[1], SqlValue::Int(3)));
}

#[test]
fn empty_groups_leave_no_where_clause() {
    let (sql, next) = QueryOptions::new().filter_group(FilterGroup::and()).filter_group(FilterGroup::or()).build_where_clause(3);
    assert_eq!(sql, "");
    assert_eq!(next, 3);
}

#[test]
fn placeholders_follow_the_filters_across_groups() {
    let options = QueryOptions::new()
        .filter("a", FilterOp::Eq, 1i32)
        .filter_group(FilterGroup::or().filter("b", FilterOp::IsNull, 0i32).filter("c", FilterOp::Gt, 2i32))
        .filter("d", FilterOp::Lt, 3i32);
    let (sql, next) = options.build_where_clause(1);
    assert_eq!(sql, " WHERE a = $1 AND (b IS NULL OR c > $2) AND d < $3");
    assert_eq!(next, 4);
    let params = options.filter_params();
    assert_eq!(params.len(), 3);
    assert!(matches!(params[0], SqlValue::Int(1)));
    assert!(matches!(params[1], SqlValue::Int(2)));
    assert!(matches!(params[2], SqlValue::Int(3)));
}
