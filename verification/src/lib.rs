//! orm: a PostgreSQL schema, migration and query-building toolkit.
//!
//! The verified core: the schema model and its diff / inversion / SQL
//! rendering, the query builder, numeric text handling and code generation
//! helpers.

pub mod text;
pub mod cli;
pub mod export;
pub mod lang;
pub mod schema;
pub mod style;
pub mod validate;
pub mod validators;
pub mod migrate;
pub mod numeric;
pub mod query;
pub mod registry;
pub mod seed;
