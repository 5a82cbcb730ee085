//! File-type detection errors.
use vstd::prelude::*;
use vstd::string::*;

use crate::extraction::FileExtractionError;

verus! {

/// Errors raised while loading or running the file-type model.
pub enum MagikaInferenceError {
    /// I/O failure (file reads, model loading), with its message.
    Io(String),
    /// Invalid or incompatible model configuration.
    InvalidConfig(String),
    /// Generic failure during inference or weight parsing.
    Runtime(String),
}

/// Message of a detection error.
pub open spec fn inference_error_text(error: MagikaInferenceError) -> Seq<char> {
    match error {
        MagikaInferenceError::Io(e) => "io error: "@ + e@,
        MagikaInferenceError::InvalidConfig(e) => "invalid configuration: "@ + e@,
        MagikaInferenceError::Runtime(e) => "inference runtime error: "@ + e@,
    }
}

impl MagikaInferenceError {
    /// Message describing the error.
    pub fn message(&self) -> (text: String)
        ensures
            text@ == inference_error_text(*self),
    {
        let (prefix, detail) = match self {
            MagikaInferenceError::Io(e) => ("io error: ", e),
            MagikaInferenceError::InvalidConfig(e) => ("invalid configuration: ", e),
            MagikaInferenceError::Runtime(e) => ("inference runtime error: ", e),
        };
        let mut text = prefix.to_owned();
        text.append(detail.as_str());
        text
    }
}

/// Extraction error for a failed detection: the detection engine failed.
pub fn detection_extraction_error(error: MagikaInferenceError) -> (converted: FileExtractionError)
    ensures
        converted matches FileExtractionError::DetectionEngine { engine } && engine@ == "magika"@,
{
    FileExtractionError::DetectionEngine { engine: "magika" }
}

} // verus!
