//! An HTTP semantics engine: a library that drives an HTTP request through a
//! fixed decision graph and produces a protocol-correct response.
//!
//! Applications describe a resource as a record of behavioural outcomes and
//! static capability lists; the engine alone decides the status code, selects
//! headers for content negotiation, enforces conditional-request semantics and
//! chooses representations from the `Accept*` headers.

pub mod content_negotiation;
pub mod context;
pub mod dates;
pub mod dispatcher;
pub mod enums;
pub mod finalize;
pub mod headers;
pub mod laws;
pub mod machine;
pub mod paths;
pub mod query;
pub mod resource;
pub mod sorting;
pub mod strutil;
