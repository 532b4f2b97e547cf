//! Query building: filters, sorting, paging and row locks for list
//! queries, and column lists for inserts and updates.

pub mod builder;
pub mod params;
pub mod write;

pub use builder::{
    is_identifier, Filter, FilterGroup, FilterOp, FilterValue, Float64, LogicalOp, QueryOptions, QuerySort,
    SqlValue,
};
pub use params::{Pagination, Search, Sort, SortOrder};
pub use write::{InsertValues, UpdateValues, WriteError};
