//! Language backends for exported types.

pub mod ts;
