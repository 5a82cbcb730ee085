//! Extraction result and configuration types.
pub mod extraction;
