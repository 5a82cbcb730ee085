//! Verified core of the akuna knowledge tooling library.
use vstd::prelude::*;

pub mod chunking;
pub mod config;
pub mod detection;
pub mod extraction;
pub mod graph;
pub mod layout;
pub mod ocr;
pub mod reranking;
pub mod storage;
pub mod syntax;
pub mod testing;
pub mod text;
pub mod types;
