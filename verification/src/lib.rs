//! An in-memory graph container: directed or undirected graphs with optional
//! per-vertex and per-edge payloads, breadth-first traversal, and a
//! line-oriented text serialization ("Trivial Graph Format").

pub mod errors;
pub mod bfs;
pub mod codec;
pub mod digits;
pub mod graph;
pub mod laws;

pub use errors::GraphError;
pub use graph::{DefaultGraphIdType, EdgeDirection, EdgeDirectionType, Graph, GraphType, Vertex};
