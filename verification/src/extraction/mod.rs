//! File content and metadata extraction with structured parts.
//!
//! Extraction turns supported files into canonical text plus structured
//! parts. This module holds the parts that compute: MIME resolution from
//! hints, document assembly from extractor text, OCR pages, office text and
//! syntax trees, part segmenting, and the assembly of an extraction result
//! from what was read.
use vstd::prelude::*;

use crate::chunking::ChunkingConfig;
use crate::extraction::document::{document_text, opt_string, ExtractedDocument};
use crate::extraction::segments::{derive_part_chunking, segmented_part};

pub mod code;
pub mod document;
pub mod mime;
pub mod office;
pub mod pdf;
pub mod segments;
pub mod sources;

pub use document::content_from_ocr_page;

verus! {

/// Errors that can occur during file extraction.
#[derive(Debug)]
pub enum FileExtractionError {
    /// I/O error, with its message.
    Io { message: String },
    /// Error from an engine determining file type.
    DetectionEngine { engine: &'static str },
    /// Error from an engine extracting file contents.
    ExtractionEngine { engine: &'static str },
    /// Extraction succeeded but returned no text content.
    MissingTextContent { engine: &'static str },
    /// File at the given path has no contents.
    NoContents,
    /// File at the given path is not supported for extraction.
    UnsupportedFileType { mime_type: String, label: String, description: String },
}

/// Optional source hints for byte-based extraction.
pub struct SourceHint {
    /// Source file name, when known.
    pub file_name: Option<String>,
    /// Source MIME type, when known.
    pub mime_type: Option<String>,
    /// Source extension without leading dot, when known.
    pub extension: Option<String>,
}

/// Preferences for how text is extracted.
pub struct TextExtractionConfig {
    /// Whether supported extractors should prefer Markdown output.
    pub prefer_markdown: bool,
}

impl Default for TextExtractionConfig {
    fn default() -> (config: Self)
        ensures
            !config.prefer_markdown,
    {
        TextExtractionConfig { prefer_markdown: false }
    }
}

/// Top-level extraction configuration.
///
/// File contents are read when content or parts output is requested.
/// Metadata inference never requires reading file contents.
pub struct ExtractionConfig {
    /// Include inferred file metadata in the result.
    pub return_metadata: bool,
    /// Include extracted content in the result.
    pub return_content: bool,
    /// Include derived text segments inside each returned part.
    pub return_part_segments: bool,
    /// Include structured content parts in the result.
    pub return_parts: bool,
    /// Optional text extraction preferences.
    pub text: Option<TextExtractionConfig>,
    /// Optional chunking preferences for derived part segments.
    pub chunking: Option<ChunkingConfig>,
}

/// Whether a configuration carries the default text and chunking preferences.
pub open spec fn has_default_preferences(config: ExtractionConfig) -> bool {
    &&& config.text matches Some(t) && !t.prefer_markdown
    &&& config.chunking matches Some(c) && c.target_size is None
        && c.delimiters_by_ft@.len() == 0 && c.delimiters is None
}

impl Default for ExtractionConfig {
    fn default() -> (config: Self)
        ensures
            config.return_metadata,
            !config.return_content,
            !config.return_part_segments,
            !config.return_parts,
            has_default_preferences(config),
    {
        ExtractionConfig {
            return_metadata: true,
            return_content: false,
            return_part_segments: false,
            return_parts: false,
            text: Some(TextExtractionConfig::default()),
            chunking: Some(ChunkingConfig::default()),
        }
    }
}

/// Convenience configuration for metadata-only extraction.
pub fn metadata_only_config() -> (config: ExtractionConfig)
    ensures
        config.return_metadata,
        !config.return_content,
        !config.return_part_segments,
        !config.return_parts,
        has_default_preferences(config),
{
    ExtractionConfig {
        return_metadata: true,
        return_content: false,
        return_part_segments: false,
        return_parts: false,
        ..Default::default()
    }
}

/// Convenience configuration for canonical structured parts extraction.
pub fn parts_config() -> (config: ExtractionConfig)
    ensures
        config.return_metadata,
        !config.return_content,
        !config.return_part_segments,
        config.return_parts,
        has_default_preferences(config),
{
    ExtractionConfig { return_parts: true, ..Default::default() }
}

/// Extracted text content and related derived data.
pub struct ExtractionContent {
    /// Extracted text.
    pub text: Option<String>,
}

/// Character range within canonical extracted text.
#[derive(Clone, Copy)]
pub struct ExtractionTextRange {
    /// Start byte offset, inclusive.
    pub start: usize,
    /// End byte offset, exclusive.
    pub end: usize,
}

/// Text segment derived from an extraction part.
pub struct ExtractionSegment {
    /// Zero-based segment index within the part.
    pub index: usize,
    /// Segment text.
    pub text: Option<String>,
    /// Byte range in the part text, when known.
    pub range: Option<ExtractionTextRange>,
}

/// Extraction engine and source location metadata for a part.
pub struct ExtractionPartProvenance {
    /// Extraction method that produced this part.
    pub method: String,
    /// Engines or models involved in producing this part.
    pub engines: Vec<String>,
    /// Extractor-specific source identifier, when known.
    pub source_id: Option<String>,
    /// One-based page number, when known.
    pub page: Option<usize>,
    /// One-based line number, when known.
    pub line: Option<usize>,
}

/// Structured content part derived from a source document.
pub struct ExtractionPart {
    /// Zero-based part index.
    pub index: usize,
    /// Semantic part kind.
    pub kind: String,
    /// Extracted part text.
    pub text: Option<String>,
    /// Byte range in the canonical extracted text, when known.
    pub range: Option<ExtractionTextRange>,
    /// Extraction engine and source location metadata for the part.
    pub provenance: Option<ExtractionPartProvenance>,
    /// Derived text segments for this part, when chunking is requested.
    pub segments: Option<Vec<ExtractionSegment>>,
}

/// Metadata detected during extraction.
pub struct ExtractionMetadata {
    /// File stem from the path, without the extension, when present.
    pub stem: Option<String>,
    /// File extension from the path, when present.
    pub extension: Option<String>,
    /// Unique label identifying the detected content type.
    pub label: String,
    /// Detected MIME type.
    pub mime_type: String,
    /// Detected file type description.
    pub description: String,
    /// Whether the file can be treated as text.
    pub is_text: bool,
}

/// Structured extraction output.
pub struct ExtractionResult {
    /// Detected file metadata, when requested.
    pub metadata: Option<ExtractionMetadata>,
    /// Extracted text, when requested.
    pub text: Option<String>,
    /// Structured content parts derived from extraction, when content was read.
    pub parts: Option<Vec<ExtractionPart>>,
}

/// Return provided bytes after validating they are non-empty.
///
/// Returns [`FileExtractionError::NoContents`] for empty input.
pub fn extract_bytes(bytes: &[u8]) -> (result: Result<Vec<u8>, FileExtractionError>)
    ensures
        bytes@.len() == 0 ==> result matches Err(FileExtractionError::NoContents),
        bytes@.len() > 0 ==> (result matches Ok(v) && v@ == bytes@),
{
    if bytes.len() == 0 {
        return Err(FileExtractionError::NoContents);
    }
    Ok(vstd::slice::slice_to_vec(bytes))
}


/// What a configuration needs read from a file.
pub struct ExtractionNeeds {
    /// File type metadata must be detected.
    pub metadata: bool,
    /// File contents must be extracted.
    pub content: bool,
    /// Parts must be segmented.
    pub part_segments: bool,
}

/// What a configuration needs: metadata for any output, content for content,
/// parts or segments, and segmenting when segments are requested.
pub fn extraction_needs(config: &ExtractionConfig) -> (needs: ExtractionNeeds)
    ensures
        needs.metadata == (config.return_metadata || config.return_content
            || config.return_part_segments || config.return_parts),
        needs.content == (config.return_content || config.return_part_segments
            || config.return_parts),
        needs.part_segments == config.return_part_segments,
{
    ExtractionNeeds {
        metadata: config.return_metadata || config.return_content || config.return_part_segments
            || config.return_parts,
        content: config.return_content || config.return_part_segments || config.return_parts,
        part_segments: config.return_part_segments,
    }
}

/// Assembles the extraction result from what was read: metadata when it was
/// requested, the document text when content was requested, and the document
/// parts, segmented when segments were requested, when parts were requested.
pub fn assemble_extraction(
    config: &ExtractionConfig,
    metadata: Option<ExtractionMetadata>,
    document: Option<ExtractedDocument>,
) -> (result: ExtractionResult)
    ensures
        result.metadata == (if config.return_metadata {
            metadata
        } else {
            None
        }),
        opt_string(result.text) == (match document {
            Some(d) => if config.return_content {
                document_text(d.canonical_text, d.parts@)
            } else {
                None
            },
            None => None,
        }),
        match document {
            Some(d) => if config.return_parts {
                result.parts matches Some(parts) && if config.return_part_segments {
                    &&& parts@.len() == d.parts@.len()
                    &&& forall|k: int|
                        0 <= k < parts@.len() ==> segmented_part(
                            #[trigger] d.parts@[k],
                            parts@[k],
                            match &config.chunking {
                                Some(c) => Some(c),
                                None => None,
                            },
                            match &metadata {
                                Some(m) => Some(m),
                                None => None,
                            },
                        )
                } else {
                    parts@ == d.parts@
                }
            } else {
                result.parts is None
            },
            None => result.parts is None,
        },
{
    let (text, parts) = match document {
        Some(document) => {
            let text = document.text();
            let parts = if config.return_parts {
                if config.return_part_segments {
                    Some(derive_part_chunking(document.parts, config.chunking.as_ref(), metadata.as_ref()))
                } else {
                    Some(document.parts)
                }
            } else {
                None
            };
            (text, parts)
        },
        None => (None, None),
    };
    let returned_text = if config.return_content {
        text
    } else {
        None
    };
    let returned_metadata = if config.return_metadata {
        metadata
    } else {
        None
    };
    ExtractionResult { metadata: returned_metadata, text: returned_text, parts }
}

} // verus!
