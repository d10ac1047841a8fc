//! A generic directed graph stored as adjacency lists: vertices keyed by an
//! identifier with an optional payload, and outgoing edges kept per source
//! vertex in insertion order.

pub mod graph;
pub mod hashing;
pub mod laws;

pub use graph::{Graph, GraphView};
