//! Generates the source text of an `axum` router function from a
//! declarative API specification: paths, HTTP methods and operation
//! identifiers go in; a `router()` function with one route registration
//! per path, methods chained in document order, comes out.
//!
//! The pipeline is `pipeline::generate`: parse the YAML text into a
//! document, build the routing table (`routes`), and render it as source
//! text (`render`), normalizing each `operationId` to a snake-case handler
//! identifier (`ident`).  Every step's behaviour is pinned by its
//! contract; parsing and the final code formatting rely on outside crates
//! behind trusted wrappers.

pub mod document;
pub mod ident;
pub mod pipeline;
pub mod render;
pub mod routes;
