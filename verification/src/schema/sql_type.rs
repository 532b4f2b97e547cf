//! The PostgreSQL column type of each Rust type a declared table may hold.
//! `DateTime<Utc>` (`timestamptz`), `f32` (`real`) and `f64` (`double
//! precision`) have no impl here: Verus takes neither chrono's `DateTime`
//! nor floating point.

use vstd::prelude::*;

use crate::numeric::NumericText;

verus! {

#[verifier::external_type_specification]
#[verifier::external_body]
pub struct ExNaiveDate(chrono::NaiveDate);

#[verifier::external_type_specification]
#[verifier::external_body]
pub struct ExNaiveDateTime(chrono::NaiveDateTime);

#[verifier::external_type_specification]
#[verifier::external_body]
pub struct ExJsonValue(serde_json::Value);

/// A Rust type's column type, and whether the column admits NULL.
pub trait SqlType {
    const SQL_TYPE: &'static str;
    const NULLABLE: bool;
}

impl SqlType for bool {
    const SQL_TYPE: &'static str = "boolean";
    const NULLABLE: bool = false;
}

impl SqlType for i16 {
    const SQL_TYPE: &'static str = "int2";
    const NULLABLE: bool = false;
}

impl SqlType for i32 {
    const SQL_TYPE: &'static str = "int4";
    const NULLABLE: bool = false;
}

impl SqlType for i64 {
    const SQL_TYPE: &'static str = "int8";
    const NULLABLE: bool = false;
}

impl SqlType for String {
    const SQL_TYPE: &'static str = "text";
    const NULLABLE: bool = false;
}

impl SqlType for Vec<u8> {
    const SQL_TYPE: &'static str = "bytea";
    const NULLABLE: bool = false;
}

impl SqlType for uuid::Uuid {
    const SQL_TYPE: &'static str = "uuid";
    const NULLABLE: bool = false;
}

impl SqlType for chrono::NaiveDate {
    const SQL_TYPE: &'static str = "date";
    const NULLABLE: bool = false;
}

impl SqlType for chrono::NaiveDateTime {
    const SQL_TYPE: &'static str = "timestamp";
    const NULLABLE: bool = false;
}

impl SqlType for serde_json::Value {
    const SQL_TYPE: &'static str = "jsonb";
    const NULLABLE: bool = false;
}

impl SqlType for NumericText {
    const SQL_TYPE: &'static str = "numeric";
    const NULLABLE: bool = false;
}

impl<T: SqlType> SqlType for Option<T> {
    const SQL_TYPE: &'static str = T::SQL_TYPE;
    const NULLABLE: bool = true;
}

} // verus!
