//! Graph storage and retrieval types.
pub mod graph;
