use orm::numeric::NumericText;
use orm::schema::sql_type::SqlType;

fn column_type<T: SqlType>() -> (&'static str, bool) {
    (T::SQL_TYPE, T::NULLABLE)
}

#[test]
fn rust_types_map_to_postgres_column_types() {
    assert_eq!(column_type::<bool>(), ("boolean", false));
    assert_eq!(column_type::<i16>(), ("int2", false));
    assert_eq!(column_type::<i32>(), ("int4", false));
    assert_eq!(column_type::<i64>(), ("int8", false));
    assert_eq!(column_type::<String>(), ("text", false));
    assert_eq!(column_type::<Vec<u8>>(), ("bytea", false));
    assert_eq!(column_type::<uuid::Uuid>(), ("uuid", false));
    assert_eq!(column_type::<chrono::NaiveDate>(), ("date", false));
    assert_eq!(column_type::<chrono::NaiveDateTime>(), ("timestamp", false));
    assert_eq!(column_type::<serde_json::Value>(), ("jsonb", false));
    assert_eq!(column_type::<NumericText>(), ("numeric", false));
}

#[test]
fn optional_types_are_nullable_columns_of_the_same_type() {
    assert_eq!(column_type::<Option<i64>>(), ("int8", true));
    assert_eq!(column_type::<Option<Option<String>>>(), ("text", true));
}
