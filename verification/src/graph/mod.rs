//! Knowledge graph primitives.
pub mod primitives;
pub mod storage;
