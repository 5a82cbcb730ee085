//! Post-processing of structured PDF parts: headings split from the body
//! text that follows them, and page numbers marked as footers.
use vstd::prelude::*;
use vstd::string::*;
use vstd::utf8::*;

use crate::extraction::document::{part_texts, ExtractedDocument};
use crate::extraction::{ExtractionPart, ExtractionPartProvenance, ExtractionSegment, ExtractionTextRange};
use crate::text::{
    join_seq, join_strings, join_strs, lines, pieces_bytes, starts_with, std_lines, strings_view, strs_view, trim, trimmed,
};

verus! {

broadcast use vstd::utf8::encode_utf8_decode_utf8;

/// Optional string viewed as optional characters.
pub open spec fn opt_chars_of(s: Option<String>) -> Option<Seq<char>> {
    match s {
        Some(t) => Some(t@),
        None => None,
    }
}

/// Provenance viewed as plain values.
pub open spec fn provenance_view(p: Option<ExtractionPartProvenance>) -> Option<
    (Seq<char>, Seq<Seq<char>>, Option<Seq<char>>, Option<usize>, Option<usize>),
> {
    match p {
        Some(p) => Some((p.method@, strings_view(p.engines@), opt_chars_of(p.source_id), p.page, p.line)),
        None => None,
    }
}

/// Segment values viewed as plain values.
pub open spec fn segment_items_view(v: Seq<ExtractionSegment>) -> Seq<
    (usize, Option<Seq<char>>, Option<(usize, usize)>),
> {
    v.map_values(
        |x: ExtractionSegment|
            (
                x.index,
                opt_chars_of(x.text),
                match x.range {
                    Some(r) => Some((r.start, r.end)),
                    None => None,
                },
            ),
    )
}

/// Segments viewed as plain values.
pub open spec fn segments_view(s: Option<Vec<ExtractionSegment>>) -> Option<
    Seq<(usize, Option<Seq<char>>, Option<(usize, usize)>)>,
> {
    match s {
        Some(v) => Some(segment_items_view(v@)),
        None => None,
    }
}

fn clone_opt_string(s: &Option<String>) -> (c: Option<String>)
    ensures
        opt_chars_of(c) == opt_chars_of(*s),
{
    match s {
        Some(t) => Some(t.clone()),
        None => None,
    }
}

fn clone_strings(v: &Vec<String>) -> (c: Vec<String>)
    ensures
        strings_view(c@) == strings_view(v@),
{
    let mut c: Vec<String> = Vec::new();
    let mut i: usize = 0;
    while i < v.len()
        invariant
            i <= v@.len(),
            strings_view(c@) == strings_view(v@.subrange(0, i as int)),
        decreases v@.len() - i,
    {
        let ghost before = c@;
        let item = v[i].clone();
        assert(item@ == v@[i as int]@);
        c.push(item);
        assert(strings_view(c@) =~= strings_view(before).push(v@[i as int]@));
        assert(strings_view(c@) =~= strings_view(v@.subrange(0, i as int + 1)));
        i = i + 1;
    }
    assert(v@.subrange(0, i as int) =~= v@);
    c
}

fn clone_provenance(p: &Option<ExtractionPartProvenance>) -> (c: Option<ExtractionPartProvenance>)
    ensures
        provenance_view(c) == provenance_view(*p),
{
    match p {
        Some(p) => Some(
            ExtractionPartProvenance {
                method: p.method.clone(),
                engines: clone_strings(&p.engines),
                source_id: clone_opt_string(&p.source_id),
                page: p.page,
                line: p.line,
            },
        ),
        None => None,
    }
}

fn clone_segments(s: &Option<Vec<ExtractionSegment>>) -> (c: Option<Vec<ExtractionSegment>>)
    ensures
        segments_view(c) == segments_view(*s),
{
    match s {
        Some(v) => {
            let mut c: Vec<ExtractionSegment> = Vec::new();
            let mut i: usize = 0;
            while i < v.len()
                invariant
                    i <= v@.len(),
                    c@.len() == i,
                    segment_items_view(c@) == segment_items_view(v@.subrange(0, i as int)),
                decreases v@.len() - i,
            {
                let x = &v[i];
                let ghost before = c@;
                let copy = ExtractionSegment {
                    index: x.index,
                    text: clone_opt_string(&x.text),
                    range: x.range,
                };
                c.push(copy);
                assert(*x == v@[i as int]);
                assert(segment_items_view(c@)[i as int] == segment_items_view(v@)[i as int]);
                assert(segment_items_view(c@) =~= segment_items_view(before).push(segment_items_view(c@)[i as int]));
                assert(segment_items_view(v@.subrange(0, i as int + 1)) =~= segment_items_view(v@.subrange(0, i as int)).push(segment_items_view(v@)[i as int]));
                i = i + 1;
            }
            assert(v@.subrange(0, i as int) =~= v@);
            Some(c)
        },
        None => None,
    }
}

/// Whether a character is an ASCII digit.
pub open spec fn ascii_digit(c: char) -> bool {
    '0' <= c && c <= '9'
}

/// Whether a part is a page number: it has text and every character of it
/// is an ASCII digit (an empty text counts).
pub open spec fn spec_page_number(part: ExtractionPart) -> bool {
    match part.text {
        Some(t) => all_digits(t@),
        None => false,
    }
}

/// Whether every character is an ASCII digit.
pub open spec fn all_digits(s: Seq<char>) -> bool {
    forall|i: int| 0 <= i < s.len() ==> ascii_digit(#[trigger] s[i])
}

/// Whether a part is a page number.
pub fn is_pdf_page_number(part: &ExtractionPart) -> (page_number: bool)
    ensures
        page_number == spec_page_number(*part),
{
    match &part.text {
        None => false,
        Some(text) => {
            let t = text.as_str();
            let len = t.unicode_len();
            let mut i: usize = 0;
            while i < len
                invariant
                    len == t@.len(),
                    t@ == text@,
                    part.text == Some(*text),
                    i <= len,
                    forall|j: int| 0 <= j < i ==> ascii_digit(#[trigger] t@[j]),
                decreases len - i,
            {
                let c = t.get_char(i);
                if !('0' <= c && c <= '9') {
                    assert(!ascii_digit(t@[i as int]));
                    assert(part.text == Some(*text));
                    assert(!all_digits(text@));
                    return false;
                }
                i = i + 1;
            }
            true
        },
    }
}

/// Marks page-number parts as footers.
pub fn classify_pdf_flat_parts(parts: Vec<ExtractionPart>) -> (classified: Vec<ExtractionPart>)
    ensures
        classified@.len() == parts@.len(),
        forall|k: int|
            0 <= k < parts@.len() ==> {
                let before = #[trigger] parts@[k];
                let after = classified@[k];
                &&& after.index == before.index
                &&& after.text == before.text
                &&& after.range == before.range
                &&& after.provenance == before.provenance
                &&& after.segments == before.segments
                &&& if spec_page_number(before) {
                    after.kind@ == "footer"@
                } else {
                    after.kind == before.kind
                }
            },
{
    let ghost given = parts@;
    let mut classified: Vec<ExtractionPart> = Vec::new();
    for part in it: parts
        invariant
            given == it.seq(),
            classified@.len() == it.index(),
            forall|k: int|
                0 <= k < it.index() ==> {
                    let before = #[trigger] given[k];
                    let after = classified@[k];
                    &&& after.index == before.index
                    &&& after.text == before.text
                    &&& after.range == before.range
                    &&& after.provenance == before.provenance
                    &&& after.segments == before.segments
                    &&& if spec_page_number(before) {
                        after.kind@ == "footer"@
                    } else {
                        after.kind == before.kind
                    }
                },
    {
        let mut part = part;
        if is_pdf_page_number(&part) {
            part.kind = "footer".to_owned();
        }
        classified.push(part);
    }
    classified
}

/// Lines of a text, as characters.
pub open spec fn text_lines(text: Seq<char>) -> Seq<Seq<char>> {
    std_lines(encode_utf8(text)).map_values(|l: Seq<u8>| decode_utf8(l))
}

/// Number of heading lines a part text starts with: a `Book ` line followed
/// by an `On ` line, or a single `On ` line; zero otherwise.
pub open spec fn heading_line_count(lines: Seq<Seq<char>>) -> int {
    if lines.len() >= 2 && "Book "@.is_prefix_of(lines[0]) && "On "@.is_prefix_of(lines[1]) {
        2
    } else if lines.len() >= 1 && "On "@.is_prefix_of(lines[0]) {
        1
    } else {
        0
    }
}

/// Whether `out` is `part` split into a heading part and a body part, or
/// `part` alone when its text has no heading lines or nothing after them.
pub open spec fn heading_split(part: ExtractionPart, out: Seq<ExtractionPart>) -> bool {
    match part.text {
        None => out.len() == 1 && out[0] == part,
        Some(t) => {
            let lines = text_lines(t@);
            let h = heading_line_count(lines);
            if h == 0 || lines.len() <= h {
                out.len() == 1 && out[0] == part
            } else {
                &&& out.len() == 2
                &&& out[0].index == part.index && out[1].index == part.index
                &&& out[0].kind@ == "heading"@ && out[1].kind@ == "paragraph"@
                &&& opt_chars_of(out[0].text) == Some(join_seq(lines.subrange(0, h), "\n"@))
                &&& opt_chars_of(out[1].text) == Some(join_seq(lines.subrange(h, lines.len() as int), "\n"@))
                &&& out[0].range is None && out[1].range is None
                &&& provenance_view(out[0].provenance) == provenance_view(part.provenance)
                &&& out[1].provenance == part.provenance
                &&& segments_view(out[0].segments) == segments_view(part.segments)
                &&& out[1].segments == part.segments
            }
        },
    }
}

/// Splits heading lines at the start of a part text into a part of their own.
pub fn split_pdf_heading_part(part: ExtractionPart) -> (out: Vec<ExtractionPart>)
    ensures
        heading_split(part, out@),
{
    let (heading_text, body_text) = match &part.text {
        None => return vec![part],
        Some(text) => {
            let found = lines(text.as_str());
            let ghost view = strs_view(found@);
            proof {
                assert(view =~= text_lines(text@)) by {
                    assert forall|i: int| 0 <= i < view.len() implies view[i] == text_lines(text@)[i] by {
                        assert(pieces_bytes(found@)[i] == found@[i].spec_bytes());
                    }
                }
            }
            let count = found.len();
            let heading_lines: usize = if count >= 2 && starts_with(found[0], "Book ") && starts_with(
                found[1],
                "On ",
            ) {
                2
            } else if count >= 1 && starts_with(found[0], "On ") {
                1
            } else {
                0
            };
            if heading_lines == 0 || count <= heading_lines {
                return vec![part];
            }
            let head = vstd::slice::slice_subrange(found.as_slice(), 0, heading_lines);
            let body = vstd::slice::slice_subrange(found.as_slice(), heading_lines, count);
            let heading_text = join_strs(head, "\n");
            let body_text = join_strs(body, "\n");
            assert(strs_view(head@) =~= view.subrange(0, heading_lines as int));
            assert(strs_view(body@) =~= view.subrange(heading_lines as int, count as int));
            (heading_text, body_text)
        },
    };
    let heading = ExtractionPart {
        index: part.index,
        kind: "heading".to_owned(),
        text: Some(heading_text),
        range: None,
        provenance: clone_provenance(&part.provenance),
        segments: clone_segments(&part.segments),
    };
    let mut body = part;
    body.kind = "paragraph".to_owned();
    body.text = Some(body_text);
    body.range = None;
    vec![heading, body]
}

/// Whether `out` is `flat` with the index of each part set to its position.
pub open spec fn renumbered(flat: Seq<ExtractionPart>, out: Seq<ExtractionPart>) -> bool {
    &&& out.len() == flat.len()
    &&& forall|k: int|
        0 <= k < out.len() ==> {
            let a = #[trigger] out[k];
            let b = flat[k];
            &&& a.index == k
            &&& a.kind == b.kind
            &&& a.text == b.text
            &&& a.range == b.range
            &&& a.provenance == b.provenance
            &&& a.segments == b.segments
        }
}

/// Splits the heading lines off every part, in order, and numbers the
/// resulting parts from zero.
pub fn split_pdf_heading_parts(parts: Vec<ExtractionPart>) -> (out: Vec<ExtractionPart>)
    ensures
        exists|pieces: Seq<Seq<ExtractionPart>>|
            {
                &&& pieces.len() == parts@.len()
                &&& forall|i: int| 0 <= i < parts@.len() ==> heading_split(#[trigger] parts@[i], pieces[i])
                &&& renumbered(pieces.flatten_alt(), out@)
            },
{
    let ghost given = parts@;
    let ghost mut pieces: Seq<Seq<ExtractionPart>> = Seq::empty();
    let mut out: Vec<ExtractionPart> = Vec::new();
    for part in it: parts
        invariant
            given == it.seq(),
            pieces.len() == it.index(),
            forall|i: int| 0 <= i < it.index() ==> heading_split(#[trigger] given[i], pieces[i]),
            renumbered(pieces.flatten_alt(), out@),
    {
        let split = split_pdf_heading_part(part);
        let ghost flat_before = pieces.flatten_alt();
        let ghost out_before = out@;
        let ghost split_view = split@;
        for piece in inner: split
            invariant
                split_view == inner.seq(),
                out_before.len() == flat_before.len(),
                renumbered(flat_before, out_before),
                out@.len() == out_before.len() + inner.index(),
                renumbered(flat_before + split_view.subrange(0, inner.index() as int), out@),
        {
            let mut piece = piece;
            let ghost k = inner.index();
            piece.index = out.len();
            out.push(piece);
            proof {
                assert(flat_before + split_view.subrange(0, k + 1) =~= (flat_before + split_view.subrange(0, k)).push(split_view[k]));
            }
        }
        proof {
            let grown = pieces.push(split_view);
            assert(grown.drop_last() =~= pieces);
            assert(split_view.subrange(0, split_view.len() as int) =~= split_view);
            pieces = grown;
        }
    }
    proof {
        assert(given =~= parts@);
    }
    out
}

/// A structured element of a PDF page as the PDF reader gives it. Its
/// bounding box, a floating-point value, is carried by the application.
pub enum PdfElement {
    /// A header.
    Header(String),
    /// A paragraph.
    Paragraph(String),
    /// A list, by the text of its items.
    List(Vec<String>),
    /// A table, by rows of cell texts.
    Table(Vec<Vec<String>>),
}

/// Kind of part an element becomes.
pub open spec fn element_kind(element: PdfElement) -> Seq<char> {
    match element {
        PdfElement::Header(_) => "heading"@,
        PdfElement::Paragraph(_) => "paragraph"@,
        PdfElement::List(_) => "list_item"@,
        PdfElement::Table(_) => "table"@,
    }
}

/// Text of a table row: its cells separated by tabs.
pub open spec fn row_text(row: Vec<String>) -> Seq<char> {
    join_seq(strings_view(row@), "\t"@)
}

/// Text of an element: list items one per line; table rows one per line.
pub open spec fn element_text(element: PdfElement) -> Seq<char> {
    match element {
        PdfElement::Header(t) => t@,
        PdfElement::Paragraph(t) => t@,
        PdfElement::List(items) => join_seq(strings_view(items@), "\n"@),
        PdfElement::Table(rows) => join_seq(rows@.map_values(|r: Vec<String>| row_text(r)), "\n"@),
    }
}

/// Kind and text of an element.
pub fn pdf_element_text(element: &PdfElement) -> (kind_text: (String, String))
    ensures
        kind_text.0@ == element_kind(*element),
        kind_text.1@ == element_text(*element),
{
    match element {
        PdfElement::Header(text) => ("heading".to_owned(), text.clone()),
        PdfElement::Paragraph(text) => ("paragraph".to_owned(), text.clone()),
        PdfElement::List(items) => ("list_item".to_owned(), join_strings(items, "\n")),
        PdfElement::Table(rows) => {
            let mut lines: Vec<String> = Vec::new();
            let mut i: usize = 0;
            while i < rows.len()
                invariant
                    i <= rows@.len(),
                    strings_view(lines@) == rows@.subrange(0, i as int).map_values(|r: Vec<String>| row_text(r)),
                decreases rows@.len() - i,
            {
                let line = join_strings(&rows[i], "\t");
                let ghost before = lines@;
                lines.push(line);
                assert(strings_view(lines@) =~= strings_view(before).push(line@));
                assert(rows@.subrange(0, i as int + 1).map_values(|r: Vec<String>| row_text(r)) =~= rows@.subrange(
                    0,
                    i as int,
                ).map_values(|r: Vec<String>| row_text(r)).push(row_text(rows@[i as int])));
                i = i + 1;
            }
            assert(rows@.subrange(0, i as int) =~= rows@);
            ("table".to_owned(), join_strings(&lines, "\n"))
        },
    }
}

/// Whether `part` is the part numbered `index` of element `element` of the
/// page at `page_index`: its kind, its trimmed text, the structured-PDF
/// method with the PDF engine, and the one-based page number.
pub open spec fn element_part(part: ExtractionPart, index: int, page_index: int, element: PdfElement) -> bool {
    &&& part.index == index
    &&& part.kind@ == element_kind(element)
    &&& opt_chars_of(part.text) == Some(trimmed(element_text(element)))
    &&& part.range is None
    &&& provenance_view(part.provenance) == Some(
        (
            "structured_pdf"@,
            seq!["pdf_oxide"@],
            None::<Seq<char>>,
            Some((page_index + 1) as usize),
            None::<usize>,
        ),
    )
    &&& part.segments is None
}

/// Elements of a page whose trimmed text is not blank, with the page index.
pub open spec fn page_kept(page_index: int, elements: Seq<PdfElement>) -> Seq<(int, PdfElement)>
    decreases elements.len(),
{
    if elements.len() == 0 {
        seq![]
    } else {
        let before = page_kept(page_index, elements.drop_last());
        if trimmed(element_text(elements.last())).len() > 0 {
            before.push((page_index, elements.last()))
        } else {
            before
        }
    }
}

/// Elements of all pages whose trimmed text is not blank, page by page.
pub open spec fn pages_kept(pages: Seq<Vec<PdfElement>>) -> Seq<(int, PdfElement)>
    decreases pages.len(),
{
    if pages.len() == 0 {
        seq![]
    } else {
        pages_kept(pages.drop_last()) + page_kept(pages.len() - 1, pages.last()@)
    }
}

/// Parts of the elements of a PDF's pages: one per element of non-blank
/// trimmed text, page by page, numbered from zero.
pub fn pdf_page_parts(pages: Vec<Vec<PdfElement>>) -> (parts: Vec<ExtractionPart>)
    ensures
        parts@.len() == pages_kept(pages@).len(),
        forall|k: int|
            0 <= k < parts@.len() ==> element_part(
                #[trigger] parts@[k],
                k,
                pages_kept(pages@)[k].0,
                pages_kept(pages@)[k].1,
            ),
{
    let total = pages.len();
    let mut parts: Vec<ExtractionPart> = Vec::new();
    let mut page_index: usize = 0;
    while page_index < total
        invariant
            total == pages@.len(),
            page_index <= pages@.len(),
            parts@.len() == pages_kept(pages@.subrange(0, page_index as int)).len(),
            forall|k: int|
                0 <= k < parts@.len() ==> element_part(
                    #[trigger] parts@[k],
                    k,
                    pages_kept(pages@.subrange(0, page_index as int))[k].0,
                    pages_kept(pages@.subrange(0, page_index as int))[k].1,
                ),
        decreases pages@.len() - page_index,
    {
        let elements = &pages[page_index];
        let ghost base = pages_kept(pages@.subrange(0, page_index as int));
        let mut e: usize = 0;
        while e < elements.len()
            invariant
                page_index < total,
                total == pages@.len(),
                elements == pages@[page_index as int],
                e <= elements@.len(),
                parts@.len() == base.len() + page_kept(page_index as int, elements@.subrange(0, e as int)).len(),
                forall|k: int|
                    0 <= k < parts@.len() ==> element_part(
                        #[trigger] parts@[k],
                        k,
                        (base + page_kept(page_index as int, elements@.subrange(0, e as int)))[k].0,
                        (base + page_kept(page_index as int, elements@.subrange(0, e as int)))[k].1,
                    ),
            decreases elements@.len() - e,
        {
            let element = &elements[e];
            let (kind, text) = pdf_element_text(element);
            let trimmed_text = trim(text.as_str());
            let ghost kept_before = page_kept(page_index as int, elements@.subrange(0, e as int));
            proof {
                assert(elements@.subrange(0, e as int + 1).drop_last() =~= elements@.subrange(0, e as int));
                assert(elements@.subrange(0, e as int + 1).last() == *element);
            }
            if trimmed_text.unicode_len() > 0 {
                let index = parts.len();
                let mut engines: Vec<String> = Vec::new();
                engines.push("pdf_oxide".to_owned());
                let part = ExtractionPart {
                    index,
                    kind,
                    text: Some(trimmed_text.to_owned()),
                    range: None,
                    provenance: Some(
                        ExtractionPartProvenance {
                            method: "structured_pdf".to_owned(),
                            engines,
                            source_id: None,
                            page: Some(page_index + 1),
                            line: None,
                        },
                    ),
                    segments: None,
                };
                let ghost before = parts@;
                parts.push(part);
                proof {
                    let grown = base + kept_before.push((page_index as int, *element));
                    assert(grown =~= (base + kept_before).push((page_index as int, *element)));
                    assert(strings_view(engines@) =~= seq!["pdf_oxide"@]);
                    assert forall|k: int| 0 <= k < parts@.len() implies element_part(
                        #[trigger] parts@[k],
                        k,
                        grown[k].0,
                        grown[k].1,
                    ) by {
                        if k < before.len() {
                            assert(parts@[k] == before[k]);
                            assert(grown[k] == (base + kept_before)[k]);
                        }
                    }
                }
            }
            e = e + 1;
        }
        proof {
            assert(elements@.subrange(0, e as int) =~= elements@);
            assert(pages@.subrange(0, page_index as int + 1).drop_last() =~= pages@.subrange(0, page_index as int));
            assert(pages@.subrange(0, page_index as int + 1).last() == pages@[page_index as int]);
        }
        page_index = page_index + 1;
    }
    assert(pages@.subrange(0, page_index as int) =~= pages@);
    parts
}

/// Document of a PDF: with more than one part, the parts and their texts
/// joined by blank lines as canonical text; otherwise the reader's whole
/// text as a single text part.
pub fn pdf_document(parts: Vec<ExtractionPart>, text: String) -> (document: ExtractedDocument)
    ensures
        parts@.len() > 1 ==> {
            &&& document.parts@ == parts@
            &&& opt_chars_of(document.canonical_text) == Some(join_seq(part_texts(parts@), "\n\n"@))
        },
        parts@.len() <= 1 ==> crate::extraction::document::text_document(document, text@),
{
    if parts.len() > 1 {
        let probe = ExtractedDocument { canonical_text: None, parts };
        let joined = match probe.text() {
            Some(joined) => joined,
            None => String::new(),
        };
        return ExtractedDocument { canonical_text: Some(joined), parts: probe.parts };
    }
    ExtractedDocument::from_text(text)
}

/// Text of a part after another is merged into it: both texts joined by
/// the separator when both parts have text, else the part's own text.
pub open spec fn merged_text(target: Option<String>, source: Option<String>, separator: Seq<char>) -> Option<Seq<char>> {
    match (target, source) {
        (Some(t), Some(s)) => Some(t@ + separator + s@),
        _ => opt_chars_of(target),
    }
}

/// Merges a part into the one before it: the texts are joined by the
/// separator and the range is extended to the end of the merged part's
/// range, each when both parts have one. The rest of the part stays.
pub fn merge_pdf_parts(target: &mut ExtractionPart, source: ExtractionPart, separator: &str)
    ensures
        final(target).index == old(target).index,
        final(target).kind == old(target).kind,
        final(target).provenance == old(target).provenance,
        final(target).segments == old(target).segments,
        opt_chars_of(final(target).text) == merged_text(old(target).text, source.text, separator@),
        final(target).range == match (old(target).range, source.range) {
            (Some(r), Some(s)) => Some(ExtractionTextRange { start: r.start, end: s.end }),
            _ => old(target).range,
        },
{
    let merged = match (&target.text, &source.text) {
        (Some(t), Some(s)) => {
            let mut joined = t.clone();
            joined.append(separator);
            joined.append(s.as_str());
            Some(joined)
        },
        _ => None,
    };
    if let Some(joined) = merged {
        target.text = Some(joined);
    }
    if let (Some(r), Some(s)) = (target.range, source.range) {
        target.range = Some(ExtractionTextRange { start: r.start, end: s.end });
    }
}

} // verus!
