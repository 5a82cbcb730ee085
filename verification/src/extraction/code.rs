//! Structured parts of source code, one per syntax node that is a code part.
use vstd::prelude::*;
use vstd::string::*;
use vstd::utf8::*;

use crate::extraction::document::{plain_provenance, text_document, ExtractedDocument};
use crate::extraction::{ExtractionMetadata, ExtractionPart, ExtractionPartProvenance, ExtractionTextRange};
use crate::syntax::{code_part_ranges, code_ranges_view, opt_str, spec_code_part_ranges, CodePartRange};
use crate::text::{byte_slice, strings_view, trim, trimmed};

verus! {

broadcast use {vstd::utf8::encode_utf8_decode_utf8, vstd::utf8::encode_utf8_valid_utf8};

/// Text of the byte range `start..end` of a text, as `str::get` gives it:
/// `None` unless the range is ordered, in bounds and on char boundaries.
pub open spec fn range_text(bytes: Seq<u8>, start: usize, end: usize) -> Option<Seq<char>> {
    if start <= end && end <= bytes.len() && is_char_boundary(bytes, start as int)
        && is_char_boundary(bytes, end as int) {
        Some(decode_utf8(bytes.subrange(start as int, end as int)))
    } else {
        None
    }
}

/// Indices, among the first `k` ranges, of those whose text exists and is
/// not blank.
pub open spec fn kept_code_indices(
    bytes: Seq<u8>,
    ranges: Seq<(Seq<char>, usize, usize)>,
    k: int,
) -> Seq<int>
    decreases k,
{
    if k <= 0 {
        seq![]
    } else {
        let before = kept_code_indices(bytes, ranges, k - 1);
        match range_text(bytes, ranges[k - 1].1, ranges[k - 1].2) {
            Some(t) => if trimmed(t).len() > 0 {
                before.push(k - 1)
            } else {
                before
            },
            None => before,
        }
    }
}

/// Engine name recorded for code parts of a file extension.
pub open spec fn code_engine(extension: Option<Seq<char>>) -> Seq<char> {
    "tree-sitter-"@ + match extension {
        Some(e) => e,
        None => "unknown"@,
    }
}

/// Whether `parts` are the code parts of a text for the given ranges: one
/// part per kept range, carrying the range's index, kind, text and offsets.
pub open spec fn code_parts(
    parts: Seq<ExtractionPart>,
    bytes: Seq<u8>,
    ranges: Seq<(Seq<char>, usize, usize)>,
    engine: Seq<char>,
) -> bool {
    let kept = kept_code_indices(bytes, ranges, ranges.len() as int);
    &&& parts.len() == kept.len()
    &&& forall|j: int|
        0 <= j < parts.len() ==> {
            let p = #[trigger] parts[j];
            let r = ranges[kept[j]];
            &&& p.index == kept[j]
            &&& p.kind@ == r.0
            &&& p.text matches Some(t) && range_text(bytes, r.1, r.2) == Some(t@)
            &&& p.range matches Some(pr) && pr.start == r.1 && pr.end == r.2
            &&& plain_provenance(p.provenance, "tree_sitter"@, seq![engine])
            &&& p.segments is None
        }
}

/// Returns the text of a byte range, as `str::get` does.
fn str_get<'a>(s: &'a str, start: usize, end: usize) -> (piece: Option<&'a str>)
    ensures
        match piece {
            Some(p) => range_text(s.spec_bytes(), start, end) == Some(p@),
            None => range_text(s.spec_bytes(), start, end) is None,
        },
{
    let len = s.as_bytes().len();
    if start <= end && end <= len && s.is_char_boundary(start) && s.is_char_boundary(end) {
        let p = byte_slice(s, start, end);
        Some(p)
    } else {
        None
    }
}

/// Whether `document` is the code document of a text for the given ranges:
/// with more than one kept range, the text as canonical text and the code
/// parts; `None` otherwise.
pub open spec fn code_document_for(
    document: Option<ExtractedDocument>,
    text: Seq<char>,
    bytes: Seq<u8>,
    view: Seq<(Seq<char>, usize, usize)>,
    engine: Seq<char>,
) -> bool {
    let kept = kept_code_indices(bytes, view, view.len() as int);
    match document {
        Some(d) => {
            &&& kept.len() > 1
            &&& d.canonical_text matches Some(c) && c@ == text
            &&& code_parts(d.parts@, bytes, view, engine)
        },
        None => kept.len() <= 1,
    }
}

/// Extension recorded in metadata.
pub open spec fn metadata_extension_view(metadata: ExtractionMetadata) -> Option<Seq<char>> {
    match metadata.extension {
        Some(e) => Some(e@),
        None => None,
    }
}

/// Code ranges of a text whose code document is owed: its code part ranges
/// ([`spec_code_part_ranges`]) when more than one of them has non-blank text.
pub open spec fn owed_code_ranges(text: Seq<char>, extension: Option<Seq<char>>) -> Option<
    Seq<(Seq<char>, usize, usize)>,
> {
    match spec_code_part_ranges(text, extension) {
        Some(view) => if kept_code_indices(encode_utf8(text), view, view.len() as int).len() > 1 {
            Some(view)
        } else {
            None
        },
        None => None,
    }
}

/// Document of code parts for the given syntax ranges: the text is the
/// canonical text, and the parts are those whose text is not blank. `None`
/// unless more than one part remains.
pub fn code_document_from_ranges(
    text: &str,
    ranges: &Vec<CodePartRange>,
    extension: Option<&str>,
) -> (document: Option<ExtractedDocument>)
    ensures
        code_document_for(
            document,
            text@,
            text.spec_bytes(),
            code_ranges_view(ranges@),
            code_engine(opt_str(extension)),
        ),
{
    let ghost bytes = text.spec_bytes();
    let ghost view = code_ranges_view(ranges@);
    let mut engine = "tree-sitter-".to_owned();
    match extension {
        Some(e) => engine.append(e),
        None => engine.append("unknown"),
    }
    let ghost engine_view = engine@;
    let mut parts: Vec<ExtractionPart> = Vec::new();
    let mut k: usize = 0;
    while k < ranges.len()
        invariant
            bytes == text.spec_bytes(),
            view == code_ranges_view(ranges@),
            engine@ == engine_view,
            k <= ranges@.len(),
            ({
                let kept = kept_code_indices(bytes, view, k as int);
                &&& parts@.len() == kept.len()
                &&& forall|j: int|
                    0 <= j < parts@.len() ==> {
                        let p = #[trigger] parts@[j];
                        let r = view[kept[j]];
                        &&& p.index == kept[j]
                        &&& p.kind@ == r.0
                        &&& p.text matches Some(t) && range_text(bytes, r.1, r.2) == Some(t@)
                        &&& p.range matches Some(pr) && pr.start == r.1 && pr.end == r.2
                        &&& plain_provenance(p.provenance, "tree_sitter"@, seq![engine_view])
                        &&& p.segments is None
                    }
            }),
        decreases ranges@.len() - k,
    {
        let range = &ranges[k];
        assert(view[k as int] == (range.kind@, range.start, range.end));
        let ghost kept_before = kept_code_indices(bytes, view, k as int);
        if let Some(piece) = str_get(text, range.start, range.end) {
            if trim(piece).unicode_len() > 0 {
                let engines = vec![engine.clone()];
                assert(strings_view(engines@) =~= seq![engine_view]);
                let part = ExtractionPart {
                    index: k,
                    kind: range.kind.clone(),
                    text: Some(piece.to_owned()),
                    range: Some(ExtractionTextRange { start: range.start, end: range.end }),
                    provenance: Some(
                        ExtractionPartProvenance {
                            method: "tree_sitter".to_owned(),
                            engines,
                            source_id: None,
                            page: None,
                            line: None,
                        },
                    ),
                    segments: None,
                };
                parts.push(part);
                assert(kept_code_indices(bytes, view, k as int + 1) == kept_before.push(k as int));
            }
        }
        k = k + 1;
    }
    if parts.len() > 1 {
        Some(ExtractedDocument { canonical_text: Some(text.to_owned()), parts })
    } else {
        None
    }
}

/// Extension recorded in metadata, as an optional slice.
fn metadata_extension(metadata: &ExtractionMetadata) -> (extension: Option<&str>)
    ensures
        match extension {
            Some(e) => metadata.extension matches Some(m) && e@ == m@,
            None => metadata.extension is None,
        },
{
    match &metadata.extension {
        Some(e) => Some(e.as_str()),
        None => None,
    }
}

/// Code document of a text: parts for the code part ranges of the named
/// parse of the text under the grammar of its extension, when more than one
/// of them has non-blank text.
pub fn extract_code_document(text: &str, metadata: &ExtractionMetadata) -> (document: Option<
    ExtractedDocument,
>)
    ensures
        match spec_code_part_ranges(text@, metadata_extension_view(*metadata)) {
            Some(view) => code_document_for(
                document,
                text@,
                text.spec_bytes(),
                view,
                code_engine(metadata_extension_view(*metadata)),
            ),
            None => document is None,
        },
{
    let extension = metadata_extension(metadata);
    assert(opt_str(extension) == metadata_extension_view(*metadata));
    let ranges = match code_part_ranges(text, extension) {
        Some(r) => r,
        None => return None,
    };
    code_document_from_ranges(text, &ranges, extension)
}

/// Document of extracted text: its code document when one is owed
/// ([`owed_code_ranges`]), else the plain text document.
pub fn extract_text_document(text: String, metadata: &ExtractionMetadata) -> (document:
    ExtractedDocument)
    ensures
        match owed_code_ranges(text@, metadata_extension_view(*metadata)) {
            Some(view) => {
                &&& document.canonical_text matches Some(c) && c@ == text@
                &&& code_parts(document.parts@, encode_utf8(text@), view, code_engine(metadata_extension_view(*metadata)))
            },
            None => text_document(document, text@),
        },
{
    let view_str = text.as_str();
    assert(view_str.spec_bytes() == encode_utf8(text@));
    if let Some(document) = extract_code_document(view_str, metadata) {
        return document;
    }
    ExtractedDocument::from_text(text)
}

} // verus!
