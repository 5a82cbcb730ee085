//! Extraction result and configuration types of the chunk-based interface.
use vstd::prelude::*;

pub use crate::chunking::ChunkingConfig;
pub use crate::extraction::{FileExtractionError, TextExtractionConfig};

verus! {

/// Top-level extraction configuration. File reads happen only when content
/// or chunks are requested; metadata needs no file read.
pub struct ExtractionConfig {
    /// Whether inferred file metadata should be included in extraction output.
    pub return_metadata: bool,
    /// Whether content should be included in extraction output.
    pub return_content: bool,
    /// Whether chunks should be included in extraction output.
    pub return_chunking: bool,
    /// Optional preferences for text content behaviour.
    pub text: Option<TextExtractionConfig>,
    /// Optional preferences for chunking behaviour.
    pub chunking: Option<ChunkingConfig>,
}

impl Default for ExtractionConfig {
    fn default() -> (config: Self)
        ensures
            config.return_metadata,
            !config.return_content,
            !config.return_chunking,
            config.text matches Some(t) && !t.prefer_markdown,
            config.chunking matches Some(c) && c.target_size is None
                && c.delimiters_by_ft@.len() == 0 && c.delimiters is None,
    {
        ExtractionConfig {
            return_metadata: true,
            return_content: false,
            return_chunking: false,
            text: Some(TextExtractionConfig::default()),
            chunking: Some(ChunkingConfig::default()),
        }
    }
}

/// Extracted text content and related derived data.
pub struct ExtractionContent {
    /// Extracted text.
    pub text: Option<String>,
}

/// Extracted text chunk and related derived data.
pub struct ExtractionChunk {
    /// Zero-based chunk index.
    pub index: usize,
    /// Chunk text.
    pub text: Option<String>,
}

/// Metadata detected during extraction.
pub struct ExtractionMetadata {
    /// File stem from the path, without the extension, when present.
    pub stem: Option<String>,
    /// File extension from the path, when present.
    pub extension: Option<String>,
    /// Unique label identifying the detected content type.
    pub label: String,
    /// Detected MIME type.
    pub mime_type: String,
    /// Detected file type description.
    pub description: String,
}

/// Structured extraction output.
pub struct ExtractionResult {
    /// Detected file metadata, when requested.
    pub metadata: Option<ExtractionMetadata>,
    /// Extracted text content, when requested.
    pub content: Option<ExtractionContent>,
    /// Extracted text chunks, when requested.
    pub chunks: Option<Vec<ExtractionChunk>>,
}

} // verus!
