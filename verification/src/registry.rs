//! Endpoint metadata the client generator reads: each HTTP endpoint with the
//! types it takes and returns, in the neutral export model.

use vstd::prelude::*;

use crate::export::FieldType;

verus! {

/// A request, response or query type an endpoint refers to.
pub struct TypeRef {
    pub ty: &'static FieldType,
}

/// One HTTP endpoint. A handler may take several query extractors (paging,
/// sorting, search); the client types their intersection as one query
/// argument.
pub struct EndpointMeta {
    pub method: &'static str,
    pub path: &'static str,
    pub name: &'static str,
    pub request: Option<TypeRef>,
    pub queries: &'static [TypeRef],
    pub response: Option<TypeRef>,
}

} // verus!
