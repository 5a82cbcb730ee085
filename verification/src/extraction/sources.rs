//! Which extractor reads a file, judged from its detected type and path.
use vstd::prelude::*;
use vstd::string::*;

use crate::extraction::mime::{after_last_dot, is_office_document_mime, is_structured_text_mime, last_dot};
use crate::extraction::ExtractionMetadata;
use crate::text::{join_seq, str_eq, strings_view, trim, trimmed};

verus! {

/// Extractor that reads a document.
#[derive(Clone, Copy, PartialEq, Eq, Debug)]
pub enum DocumentKind {
    /// Structured PDF extraction.
    Pdf,
    /// Office document extraction.
    Office,
    /// Text extraction by detected type.
    Text,
}

/// Extractor a MIME type selects: PDF, office documents, or text.
pub open spec fn spec_document_kind(mime_type: Seq<char>) -> DocumentKind {
    if mime_type == "application/pdf"@ {
        DocumentKind::Pdf
    } else if mime_type == "application/msword"@ || mime_type
        == "application/vnd.openxmlformats-officedocument.presentationml.presentation"@
        || mime_type == "application/vnd.openxmlformats-officedocument.wordprocessingml.document"@ {
        DocumentKind::Office
    } else {
        DocumentKind::Text
    }
}

/// Selects the extractor for a detected MIME type.
pub fn document_kind(mime_type: &str) -> (kind: DocumentKind)
    ensures
        kind == spec_document_kind(mime_type@),
{
    if str_eq(mime_type, "application/pdf") {
        DocumentKind::Pdf
    } else if is_office_document_mime(mime_type) {
        DocumentKind::Office
    } else {
        DocumentKind::Text
    }
}

/// How the text of a file is read.
#[derive(Clone, Copy, PartialEq, Eq, Debug)]
pub enum TextSource {
    /// The type is not supported.
    Unsupported,
    /// EPUB chapters rendered to text.
    Epub,
    /// The file is read as text as it is.
    Structured,
    /// A generic parser reads the file.
    Generic,
}

/// How the text of a file of the detected type is read: explicitly
/// unsupported archives are refused, EPUB has its own reader, structured
/// text types are read as they are, other text goes to the generic parser,
/// and the rest is unsupported.
pub open spec fn spec_text_source(mime_type: Seq<char>, is_text: bool) -> TextSource {
    if mime_type == "application/zip"@ || mime_type == "application/vnd.oasis.opendocument.text"@ {
        TextSource::Unsupported
    } else if mime_type == "application/epub+zip"@ {
        TextSource::Epub
    } else if mime_type == "application/rss+xml"@ || mime_type == "application/xhtml+xml"@
        || mime_type == "application/xml"@ || mime_type == "text/html"@ || mime_type
        == "text/markdown"@ || mime_type == "text/xml"@ {
        TextSource::Structured
    } else if is_text {
        TextSource::Generic
    } else {
        TextSource::Unsupported
    }
}

/// Selects how the text of a file is read.
pub fn text_source(metadata: &ExtractionMetadata) -> (source: TextSource)
    ensures
        source == spec_text_source(metadata.mime_type@, metadata.is_text),
{
    let mime = metadata.mime_type.as_str();
    if str_eq(mime, "application/zip") || str_eq(mime, "application/vnd.oasis.opendocument.text") {
        TextSource::Unsupported
    } else if str_eq(mime, "application/epub+zip") {
        TextSource::Epub
    } else if is_structured_text_mime(mime) {
        TextSource::Structured
    } else if metadata.is_text {
        TextSource::Generic
    } else {
        TextSource::Unsupported
    }
}

/// MIME hint handed to the generic parser: RTF under its application type,
/// a type the parser supports as it is, plain text for other text, and the
/// detected type otherwise.
pub open spec fn spec_parser_mime(mime_type: Seq<char>, is_text: bool, supported: bool) -> Seq<char> {
    if mime_type == "text/rtf"@ {
        "application/rtf"@
    } else if supported {
        mime_type
    } else if is_text {
        "text/plain"@
    } else {
        mime_type
    }
}

/// Best MIME hint for the generic parser, given whether the parser supports
/// the detected type.
pub fn preferred_parser_mime(metadata: &ExtractionMetadata, supported: bool) -> (mime: &str)
    ensures
        mime@ == spec_parser_mime(metadata.mime_type@, metadata.is_text, supported),
{
    let mime = metadata.mime_type.as_str();
    if str_eq(mime, "text/rtf") {
        "application/rtf"
    } else if supported {
        mime
    } else if metadata.is_text {
        "text/plain"
    } else {
        mime
    }
}

/// Text of the first `k` chapters: each non-blank trimmed chapter followed
/// by a blank line.
pub open spec fn chapters_text(chapters: Seq<Seq<char>>, k: int) -> Seq<char>
    decreases k,
{
    if k <= 0 {
        seq![]
    } else {
        let t = trimmed(chapters[k - 1]);
        if t.len() == 0 {
            chapters_text(chapters, k - 1)
        } else {
            chapters_text(chapters, k - 1) + t + "\n\n"@
        }
    }
}

/// Text of a book from the text of its chapters: the non-blank chapters,
/// trimmed and separated by blank lines.
pub fn join_chapters(chapters: &Vec<String>) -> (text: String)
    ensures
        text@ == trimmed(chapters_text(strings_view(chapters@), chapters@.len() as int)),
{
    let ghost view = strings_view(chapters@);
    let mut text = String::new();
    let mut k: usize = 0;
    while k < chapters.len()
        invariant
            k <= chapters@.len(),
            view == strings_view(chapters@),
            text@ == chapters_text(view, k as int),
        decreases chapters@.len() - k,
    {
        let chapter = trim(chapters[k].as_str());
        assert(chapter@ == trimmed(view[k as int]));
        if chapter.unicode_len() > 0 {
            text.append(chapter);
            text.append("\n\n");
        }
        k = k + 1;
    }
    trim(text.as_str()).to_owned()
}

/// Stem of a file name as `Path::file_stem` gives it: the name before its
/// last dot, or the whole name when it has no dot or only a leading one.
pub open spec fn file_stem_of(name: Seq<char>) -> Seq<char> {
    match last_dot(name) {
        Some(i) => if i == 0 {
            name
        } else {
            name.subrange(0, i)
        },
        None => name,
    }
}

/// Extension of a file name as `Path::extension` gives it: the text after
/// its last dot, unless it has no dot or only a leading one.
pub open spec fn file_extension_of(name: Seq<char>) -> Option<Seq<char>> {
    match last_dot(name) {
        Some(i) => if i == 0 {
            None
        } else {
            after_last_dot(name)
        },
        None => None,
    }
}

/// Stem and extension of a file name.
pub fn split_file_name(name: &str) -> (parts: (String, Option<String>))
    ensures
        parts.0@ == file_stem_of(name@),
        match parts.1 {
            Some(e) => file_extension_of(name@) == Some(e@),
            None => file_extension_of(name@) is None,
        },
{
    let len = name.unicode_len();
    let mut i: usize = len;
    while i > 0
        invariant
            len == name@.len(),
            i <= len,
            forall|j: int| i <= j < len ==> name@[j] != '.',
        decreases i,
    {
        if name.get_char(i - 1) == '.' {
            let ghost k = i - 1;
            proof {
                let c = choose|c: int|
                    0 <= c < name@.len() && name@[c] == '.' && forall|j: int|
                        c < j < name@.len() ==> name@[j] != '.';
                assert(0 <= k < name@.len() && name@[k] == '.' && forall|j: int|
                    k < j < name@.len() ==> name@[j] != '.');
                assert(c == k) by {
                    if c < k {
                        assert(name@[k] != '.');
                    } else if c > k {
                        assert(name@[c] != '.');
                    }
                }
            }
            if i - 1 == 0 {
                return (name.to_owned(), None);
            }
            return (name.substring_char(0, i - 1).to_owned(), Some(name.substring_char(i, len).to_owned()));
        }
        i = i - 1;
    }
    (name.to_owned(), None)
}

} // verus!
