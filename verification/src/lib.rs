//! Random hypergraphs grown by preferential attachment with vertex
//! deactivation.
//!
//! The crate is built around a prefix-sum tree that draws vertices with
//! probability proportional to their degree, and a growth engine that applies
//! vertex arrivals, edge arrivals and vertex deactivations to an evolving
//! hypergraph while keeping its running degree moments.

pub mod sums;
pub mod bits;
pub mod random;
pub mod fenwick;
pub mod model;
pub mod hypergraph;
pub mod failure;
pub mod engine;
pub mod simulation;
pub mod retry;
