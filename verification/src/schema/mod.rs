//! The schema model, its diff and inversion, and SQL rendering.

pub mod named;
pub mod change;
pub mod diff;
pub mod introspect;
pub mod invert;
pub mod laws;
pub mod model;
pub mod order;
pub mod questions;
pub mod registry;
pub mod sql;
pub mod sql_type;

pub use model::{
    Column, Constraint, ConstraintKind, DatabaseSchema, EnumType, ForeignKey, Index, ReferentialAction, SqlView,
    Table, TableReference, ViewReference,
};
pub use named::NamedMap;
