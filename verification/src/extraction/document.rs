//! Extracted documents: canonical text plus structured parts.
use vstd::prelude::*;
use vstd::string::*;

use crate::extraction::{
    ExtractionContent, ExtractionPart, ExtractionPartProvenance, ExtractionTextRange,
};
use crate::ocr::{block_fragments, block_texts, nonempty_trimmed, OcrPage};
use crate::text::{join_seq, join_strings, strings_view};

verus! {

/// Normalized extraction document: optional canonical text and the parts.
pub struct ExtractedDocument {
    /// Canonical text, when the extractor sets it.
    pub canonical_text: Option<String>,
    /// Structured parts in order.
    pub parts: Vec<ExtractionPart>,
}

/// Texts of the parts that carry text, in order.
pub open spec fn part_texts(parts: Seq<ExtractionPart>) -> Seq<Seq<char>>
    decreases parts.len(),
{
    if parts.len() == 0 {
        seq![]
    } else {
        let before = part_texts(parts.drop_last());
        match parts.last().text {
            Some(t) => before.push(t@),
            None => before,
        }
    }
}

/// Text of a document: its canonical text, else its part texts joined by a
/// blank line, `None` when that is empty.
pub open spec fn document_text(canonical: Option<String>, parts: Seq<ExtractionPart>) -> Option<
    Seq<char>,
> {
    match canonical {
        Some(t) => Some(t@),
        None => {
            let joined = join_seq(part_texts(parts), "\n\n"@);
            if joined.len() == 0 {
                None
            } else {
                Some(joined)
            }
        },
    }
}

/// Optional string viewed as optional characters.
pub open spec fn opt_string(s: Option<String>) -> Option<Seq<char>> {
    match s {
        Some(t) => Some(t@),
        None => None,
    }
}

/// Whether a provenance records `method` with the given engines and no
/// source location.
pub open spec fn plain_provenance(
    provenance: Option<ExtractionPartProvenance>,
    method: Seq<char>,
    engines: Seq<Seq<char>>,
) -> bool {
    &&& provenance matches Some(p)
    &&& p.method@ == method
    &&& strings_view(p.engines@) == engines
    &&& p.source_id is None
    &&& p.page is None
    &&& p.line is None
}

/// Provenance with a method and engines and no source location.
fn provenance(method: &str, engines: Vec<String>) -> (p: Option<ExtractionPartProvenance>)
    ensures
        plain_provenance(p, method@, strings_view(engines@)),
{
    Some(
        ExtractionPartProvenance {
            method: method.to_owned(),
            engines,
            source_id: None,
            page: None,
            line: None,
        },
    )
}

/// Byte length of the UTF-8 encoding of characters.
pub open spec fn byte_len(s: Seq<char>) -> int {
    vstd::utf8::encode_utf8(s).len() as int
}

/// Start of the `k`-th OCR part: each part is followed by a blank line.
pub open spec fn ocr_part_start(texts: Seq<Seq<char>>, k: int) -> int
    decreases k,
{
    if k <= 0 {
        0
    } else {
        ocr_part_start(texts, k - 1) + byte_len(texts[k - 1]) + 2
    }
}

/// Whether `parts` are the OCR parts of the given fragments: one text part
/// per fragment, in order, with its byte range in the joined text.
pub open spec fn ocr_parts(parts: Seq<ExtractionPart>, texts: Seq<Seq<char>>) -> bool {
    &&& parts.len() == texts.len()
    &&& forall|k: int|
        0 <= k < parts.len() ==> {
            let p = #[trigger] parts[k];
            &&& p.index == k
            &&& p.kind@ == "text"@
            &&& p.text matches Some(t) && t@ == texts[k]
            &&& p.range matches Some(r) && r.start == ocr_part_start(texts, k) && r.end
                == ocr_part_start(texts, k) + byte_len(texts[k])
            &&& plain_provenance(p.provenance, "ocr"@, seq!["ocr"@])
            &&& p.segments is None
        }
}

/// Whether a document is the plain text document of `text`: no canonical
/// text and one text part spanning all of it.
pub open spec fn text_document(document: ExtractedDocument, text: Seq<char>) -> bool {
    &&& document.canonical_text is None
    &&& document.parts@.len() == 1
    &&& document.parts@[0].index == 0
    &&& document.parts@[0].kind@ == "text"@
    &&& document.parts@[0].text matches Some(t) && t@ == text
    &&& document.parts@[0].range matches Some(r) && r.start == 0 && r.end == byte_len(text)
    &&& plain_provenance(document.parts@[0].provenance, "text"@, seq![])
    &&& document.parts@[0].segments is None
}

impl ExtractedDocument {
    /// Build a plain text document part from extractor text.
    pub fn from_text(text: String) -> (document: Self)
        ensures
            text_document(document, text@),
    {
        let end = text.as_str().as_bytes().len();
        let engines: Vec<String> = Vec::new();
        let part = ExtractionPart {
            index: 0,
            kind: "text".to_owned(),
            text: Some(text),
            range: Some(ExtractionTextRange { start: 0, end }),
            provenance: provenance("text", engines),
            segments: None,
        };
        assert(strings_view(engines@) =~= seq![]);
        ExtractedDocument { canonical_text: None, parts: vec![part] }
    }

    /// Returns canonical text by joining text-bearing parts in order.
    pub fn text(&self) -> (text: Option<String>)
        ensures
            opt_string(text) == document_text(self.canonical_text, self.parts@),
    {
        if let Some(text) = &self.canonical_text {
            return Some(text.clone());
        }
        let mut texts: Vec<String> = Vec::new();
        let mut i: usize = 0;
        while i < self.parts.len()
            invariant
                i <= self.parts@.len(),
                strings_view(texts@) == part_texts(self.parts@.subrange(0, i as int)),
            decreases self.parts@.len() - i,
        {
            let ghost before = texts@;
            proof {
                let next = self.parts@.subrange(0, i as int + 1);
                assert(next.drop_last() =~= self.parts@.subrange(0, i as int));
            }
            if let Some(t) = &self.parts[i].text {
                texts.push(t.clone());
                assert(strings_view(texts@) =~= strings_view(before).push(t@));
            }
            i = i + 1;
        }
        assert(self.parts@.subrange(0, i as int) =~= self.parts@);
        let joined = join_strings(&texts, "\n\n");
        if joined.as_str().unicode_len() == 0 {
            None
        } else {
            Some(joined)
        }
    }

    /// Convert into public content payload.
    pub fn into_content(self) -> (content: ExtractionContent)
        ensures
            opt_string(content.text) == document_text(self.canonical_text, self.parts@),
    {
        let text = self.text();
        ExtractionContent { text }
    }

    /// Build extraction parts from OCR output: one text part per non-empty
    /// trimmed block text, with byte ranges as if the parts were joined by a
    /// blank line.
    pub fn from_ocr_page(page: &OcrPage) -> (document: Self)
        requires
            ocr_part_start(
                nonempty_trimmed(block_texts(page.blocks@)),
                nonempty_trimmed(block_texts(page.blocks@)).len() as int,
            ) <= usize::MAX,
        ensures
            document.canonical_text is None,
            ocr_parts(document.parts@, nonempty_trimmed(block_texts(page.blocks@))),
    {
        let fragments = block_fragments(&page.blocks);
        let ghost texts = strings_view(fragments@);
        let mut parts: Vec<ExtractionPart> = Vec::new();
        let mut start: usize = 0;
        let mut k: usize = 0;
        proof {
            lemma_ocr_part_start_monotone(texts, 0, texts.len() as int);
        }
        while k < fragments.len()
            invariant
                texts == strings_view(fragments@),
                k <= fragments@.len(),
                parts@.len() == k,
                start == ocr_part_start(texts, k as int),
                ocr_part_start(texts, texts.len() as int) <= usize::MAX,
                forall|j: int|
                    0 <= j < k ==> {
                        let p = #[trigger] parts@[j];
                        &&& p.index == j
                        &&& p.kind@ == "text"@
                        &&& p.text matches Some(t) && t@ == texts[j]
                        &&& p.range matches Some(r) && r.start == ocr_part_start(texts, j) && r.end
                            == ocr_part_start(texts, j) + byte_len(texts[j])
                        &&& plain_provenance(p.provenance, "ocr"@, seq!["ocr"@])
                        &&& p.segments is None
                    },
            decreases fragments@.len() - k,
        {
            proof {
                lemma_ocr_part_start_monotone(texts, k as int + 1, texts.len() as int);
            }
            let text = fragments[k].clone();
            let end = start + text.as_str().as_bytes().len();
            let engines = vec!["ocr".to_owned()];
            assert(strings_view(engines@) =~= seq!["ocr"@]);
            let part = ExtractionPart {
                index: k,
                kind: "text".to_owned(),
                text: Some(text),
                range: Some(ExtractionTextRange { start, end }),
                provenance: provenance("ocr", engines),
                segments: None,
            };
            parts.push(part);
            start = end + 2;
            k = k + 1;
        }
        ExtractedDocument { canonical_text: None, parts }
    }
}

/// OCR part starts grow with the number of parts.
proof fn lemma_ocr_part_start_monotone(texts: Seq<Seq<char>>, a: int, b: int)
    requires
        0 <= a <= b,
    ensures
        ocr_part_start(texts, a) <= ocr_part_start(texts, b),
    decreases b - a,
{
    if a < b {
        lemma_ocr_part_start_monotone(texts, a, b - 1);
    }
}


/// The part texts of OCR parts are their fragments.
pub proof fn lemma_ocr_part_texts(parts: Seq<ExtractionPart>, texts: Seq<Seq<char>>)
    requires
        ocr_parts(parts, texts),
    ensures
        part_texts(parts) == texts,
    decreases parts.len(),
{
    if parts.len() > 0 {
        let p = parts.drop_last();
        let t = texts.drop_last();
        assert forall|k: int| 0 <= k < p.len() implies {
            let q = #[trigger] p[k];
            &&& q.index == k
            &&& q.kind@ == "text"@
            &&& q.text matches Some(x) && x@ == t[k]
            &&& q.range matches Some(r) && r.start == ocr_part_start(t, k) && r.end
                == ocr_part_start(t, k) + byte_len(t[k])
            &&& plain_provenance(q.provenance, "ocr"@, seq!["ocr"@])
            &&& q.segments is None
        } by {
            assert(p[k] == parts[k]);
            lemma_ocr_part_start_prefix(texts, t, k);
        }
        lemma_ocr_part_texts(p, t);
        assert(parts[parts.len() - 1] == parts.last());
        assert(part_texts(parts) =~= texts);
    }
}

/// Part starts depend only on the texts before them.
proof fn lemma_ocr_part_start_prefix(a: Seq<Seq<char>>, b: Seq<Seq<char>>, k: int)
    requires
        0 <= k <= a.len(),
        k <= b.len(),
        forall|i: int| 0 <= i < k ==> a[i] == b[i],
    ensures
        ocr_part_start(a, k) == ocr_part_start(b, k),
    decreases k,
{
    if k > 0 {
        lemma_ocr_part_start_prefix(a, b, k - 1);
    }
}

/// Text of an OCR page as extraction content: the trimmed non-empty block
/// texts joined by a blank line, `None` when there are none.
pub open spec fn ocr_page_text(page: OcrPage) -> Option<Seq<char>> {
    let joined = join_seq(nonempty_trimmed(block_texts(page.blocks@)), "\n\n"@);
    if joined.len() == 0 {
        None
    } else {
        Some(joined)
    }
}

/// Whether the byte ranges of the OCR parts of a page fit in `usize`.
pub open spec fn ocr_page_fits(page: OcrPage) -> bool {
    let texts = nonempty_trimmed(block_texts(page.blocks@));
    ocr_part_start(texts, texts.len() as int) <= usize::MAX
}

/// Convert an OCR page into extraction content with one text part per OCR block.
pub fn content_from_ocr_page(page: &OcrPage) -> (content: ExtractionContent)
    requires
        ocr_page_fits(*page),
    ensures
        opt_string(content.text) == ocr_page_text(*page),
{
    let document = ExtractedDocument::from_ocr_page(page);
    proof {
        lemma_ocr_part_texts(document.parts@, nonempty_trimmed(block_texts(page.blocks@)));
    }
    document.into_content()
}

} // verus!
