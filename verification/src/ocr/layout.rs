//! Which layout regions hold text, and which recognized fragments are kept.
use vstd::prelude::*;
use vstd::string::*;

use crate::text::{starts_with, str_eq};

verus! {

/// Whether a character has the Unicode `Alphabetic` property.
pub uninterp spec fn alphabetic(c: char) -> bool;

/// `char::is_alphabetic`: whether a character has the Unicode `Alphabetic`
/// property, a table of ranges that std keeps; the result is named, not
/// stated.
#[verifier::external_body]
fn is_alphabetic(c: char) -> (alpha: bool)
    ensures
        alpha == alphabetic(c),
{
    c.is_alphabetic()
}

/// Number of alphabetic characters among the first `k` of `s`.
pub open spec fn alphabetic_count(s: Seq<char>, k: int) -> int
    decreases k,
{
    if k <= 0 {
        0
    } else {
        alphabetic_count(s, k - 1) + if alphabetic(s[k - 1]) {
            1int
        } else {
            0int
        }
    }
}

/// Whether a recognized fragment is kept: it is not empty, does not start a
/// figure title, an answer or a source line, and has at least two
/// alphabetic characters.
pub open spec fn spec_useful_fragment(text: Seq<char>) -> bool {
    &&& text.len() > 0
    &&& !"Figure "@.is_prefix_of(text)
    &&& !"Answer:"@.is_prefix_of(text)
    &&& !"Source:"@.is_prefix_of(text)
    &&& !"Source "@.is_prefix_of(text)
    &&& alphabetic_count(text, text.len() as int) >= 2
}

/// Whether a recognized text fragment is worth keeping as an OCR block.
pub fn useful_ocr_fragment(text: &str) -> (useful: bool)
    ensures
        useful == spec_useful_fragment(text@),
{
    let len = text.unicode_len();
    if len == 0 {
        return false;
    }
    if starts_with(text, "Figure ") || starts_with(text, "Answer:") || starts_with(text, "Source:")
        || starts_with(text, "Source ") {
        return false;
    }
    let mut count: usize = 0;
    let mut i: usize = 0;
    while i < len
        invariant
            len == text@.len(),
            i <= len,
            count == alphabetic_count(text@, i as int),
            count <= i,
        decreases len - i,
    {
        if is_alphabetic(text.get_char(i)) {
            count = count + 1;
        }
        i = i + 1;
    }
    count >= 2
}

/// Layout labels of regions that hold text.
pub open spec fn text_like_label(label: Seq<char>) -> bool {
    ||| label == "abstract"@
    ||| label == "aside_text"@
    ||| label == "content"@
    ||| label == "doc_title"@
    ||| label == "footer"@
    ||| label == "footnote"@
    ||| label == "header"@
    ||| label == "paragraph_title"@
    ||| label == "reference"@
    ||| label == "reference_content"@
    ||| label == "text"@
    ||| label == "vision_footnote"@
}

/// Whether a layout label names a region that holds text. A detection is
/// text-like when its label is and its score is at least one tenth; the
/// score, a floating-point value, is compared by the application.
pub fn is_text_like_label(label: &str) -> (text_like: bool)
    ensures
        text_like == text_like_label(label@),
{
    str_eq(label, "abstract") || str_eq(label, "aside_text") || str_eq(label, "content") || str_eq(
        label,
        "doc_title",
    ) || str_eq(label, "footer") || str_eq(label, "footnote") || str_eq(label, "header") || str_eq(
        label,
        "paragraph_title",
    ) || str_eq(label, "reference") || str_eq(label, "reference_content") || str_eq(label, "text")
        || str_eq(label, "vision_footnote")
}

} // verus!
