//! Structured parts of office document text: headings, captions and
//! paragraphs, each located in the text it came from.
use vstd::prelude::*;
use vstd::string::*;
use vstd::utf8::*;

use crate::extraction::document::{plain_provenance, text_document, ExtractedDocument};
use crate::extraction::{ExtractionPart, ExtractionPartProvenance, ExtractionTextRange};
use crate::ocr::nonempty_trimmed;
use crate::text::{
    find_bytes, find_from, join_seq, join_strings, pieces_bytes, split_bytes, split_newlines,
    starts_with, strings_view, trim, trimmed,
};

verus! {

broadcast use vstd::utf8::encode_utf8_decode_utf8;

/// Kind of a structured office line: headings start with `#`, captions with
/// `Source:`, and lines starting with `---` are separators.
pub open spec fn office_line_kind(line: Seq<char>) -> Option<Seq<char>> {
    if "#"@.is_prefix_of(line) {
        Some("heading"@)
    } else if "Source:"@.is_prefix_of(line) {
        Some("caption"@)
    } else if "---"@.is_prefix_of(line) {
        Some("unknown"@)
    } else {
        None
    }
}

/// Blocks with the open paragraph, if any, closed as a paragraph block whose
/// lines are joined by newlines.
pub open spec fn flush_paragraph(
    blocks: Seq<(Seq<char>, Seq<char>)>,
    paragraph: Seq<Seq<char>>,
) -> Seq<(Seq<char>, Seq<char>)> {
    if paragraph.len() == 0 {
        blocks
    } else {
        blocks.push(("paragraph"@, join_seq(paragraph, "\n"@)))
    }
}

/// Blocks and open paragraph after the first `k` lines. A structured line
/// closes the open paragraph and, unless it is a separator, becomes a block
/// of its own; other lines join the open paragraph.
pub open spec fn office_blocks_upto(lines: Seq<Seq<char>>, k: int) -> (
    Seq<(Seq<char>, Seq<char>)>,
    Seq<Seq<char>>,
)
    decreases k,
{
    if k <= 0 {
        (seq![], seq![])
    } else {
        let state = office_blocks_upto(lines, k - 1);
        let line = lines[k - 1];
        match office_line_kind(line) {
            Some(kind) => {
                let flushed = flush_paragraph(state.0, state.1);
                if "---"@.is_prefix_of(line) {
                    (flushed, seq![])
                } else {
                    (flushed.push((kind, line)), seq![])
                }
            },
            None => (state.0, state.1.push(line)),
        }
    }
}

/// Blocks of a sequence of lines, the last paragraph closed.
pub open spec fn office_blocks(lines: Seq<Seq<char>>) -> Seq<(Seq<char>, Seq<char>)> {
    let state = office_blocks_upto(lines, lines.len() as int);
    flush_paragraph(state.0, state.1)
}

/// Trimmed, non-empty lines of a text.
pub open spec fn office_lines(bytes: Seq<u8>) -> Seq<Seq<char>> {
    nonempty_trimmed(split_bytes(bytes, 10u8).map_values(|p: Seq<u8>| decode_utf8(p)))
}

/// Byte ranges of the first `k` blocks and the cursor after them: each block
/// is searched in the text from the cursor, and a found block moves the
/// cursor to its end.
pub open spec fn office_ranges_upto(
    bytes: Seq<u8>,
    blocks: Seq<(Seq<char>, Seq<char>)>,
    k: int,
) -> (Seq<Option<(int, int)>>, int)
    decreases k,
{
    if k <= 0 {
        (seq![], 0)
    } else {
        let state = office_ranges_upto(bytes, blocks, k - 1);
        let needle = encode_utf8(blocks[k - 1].1);
        match find_from(bytes, needle, state.1) {
            Some(at) => (state.0.push(Some((at, at + needle.len()))), at + needle.len()),
            None => (state.0.push(None), state.1),
        }
    }
}

/// Pairs of strings viewed as pairs of characters.
pub open spec fn pairs_view(pairs: Seq<(String, String)>) -> Seq<(Seq<char>, Seq<char>)> {
    pairs.map_values(|p: (String, String)| (p.0@, p.1@))
}

/// Whether `parts` are the structured office parts of a text: one part per
/// block, with the block's kind and text, its located byte range, and the
/// office provenance.
pub open spec fn office_parts(parts: Seq<ExtractionPart>, bytes: Seq<u8>) -> bool {
    let blocks = office_blocks(office_lines(bytes));
    let ranges = office_ranges_upto(bytes, blocks, blocks.len() as int).0;
    &&& parts.len() == blocks.len()
    &&& forall|k: int|
        0 <= k < parts.len() ==> {
            let p = #[trigger] parts[k];
            &&& p.index == k
            &&& p.kind@ == blocks[k].0
            &&& p.text matches Some(t) && t@ == blocks[k].1
            &&& match ranges[k] {
                Some(r) => p.range matches Some(pr) && pr.start == r.0 && pr.end == r.1,
                None => p.range is None,
            }
            &&& plain_provenance(p.provenance, "structured_office"@, seq!["office_oxide"@])
            &&& p.segments is None
        }
}

/// Kind of a structured office line, if it is one.
pub fn structured_office_line_kind(line: &str) -> (kind: Option<String>)
    ensures
        match kind {
            Some(k) => office_line_kind(line@) == Some(k@),
            None => office_line_kind(line@) is None,
        },
{
    if starts_with(line, "#") {
        return Some("heading".to_owned());
    }
    if starts_with(line, "Source:") {
        return Some("caption".to_owned());
    }
    if starts_with(line, "---") {
        return Some("unknown".to_owned());
    }
    None
}

/// Closes the open paragraph into a paragraph block.
pub fn push_office_paragraph(blocks: &mut Vec<(String, String)>, paragraph: &mut Vec<String>)
    ensures
        pairs_view(final(blocks)@) == flush_paragraph(
            pairs_view(old(blocks)@),
            strings_view(old(paragraph)@),
        ),
        final(paragraph)@.len() == 0,
{
    if paragraph.len() == 0 {
        return ;
    }
    let joined = join_strings(paragraph, "\n");
    let ghost before = blocks@;
    blocks.push(("paragraph".to_owned(), joined));
    assert(pairs_view(blocks@) =~= pairs_view(before).push(("paragraph"@, joined@)));
    *paragraph = Vec::new();
}

/// Blocks after lines depend only on those lines.
proof fn lemma_office_blocks_prefix(a: Seq<Seq<char>>, b: Seq<Seq<char>>, k: int)
    requires
        0 <= k <= a.len(),
        k <= b.len(),
        forall|i: int| 0 <= i < k ==> a[i] == b[i],
    ensures
        office_blocks_upto(a, k) == office_blocks_upto(b, k),
    decreases k,
{
    if k > 0 {
        lemma_office_blocks_prefix(a, b, k - 1);
    }
}

/// Ranges of blocks depend only on those blocks.
proof fn lemma_office_ranges_prefix(
    bytes: Seq<u8>,
    a: Seq<(Seq<char>, Seq<char>)>,
    b: Seq<(Seq<char>, Seq<char>)>,
    k: int,
)
    requires
        0 <= k <= a.len(),
        k <= b.len(),
        forall|i: int| 0 <= i < k ==> a[i] == b[i],
    ensures
        office_ranges_upto(bytes, a, k) == office_ranges_upto(bytes, b, k),
    decreases k,
{
    if k > 0 {
        lemma_office_ranges_prefix(bytes, a, b, k - 1);
    }
}

/// A found position lies at or after the start of the search.
proof fn lemma_find_from_bounds(hay: Seq<u8>, needle: Seq<u8>, from: int)
    requires
        0 <= from,
    ensures
        find_from(hay, needle, from) matches Some(at) ==> from <= at && at + needle.len()
            <= hay.len(),
    decreases hay.len() + 1 - from,
{
    if from + needle.len() <= hay.len() && hay.subrange(from, from + needle.len()) != needle {
        lemma_find_from_bounds(hay, needle, from + 1);
    }
}

/// The cursor of the range search stays within the text.
proof fn lemma_office_cursor(bytes: Seq<u8>, blocks: Seq<(Seq<char>, Seq<char>)>, k: int)
    requires
        0 <= k <= blocks.len(),
    ensures
        0 <= office_ranges_upto(bytes, blocks, k).1 <= bytes.len(),
        office_ranges_upto(bytes, blocks, k).0.len() == k,
    decreases k,
{
    if k > 0 {
        lemma_office_cursor(bytes, blocks, k - 1);
        let state = office_ranges_upto(bytes, blocks, k - 1);
        lemma_find_from_bounds(bytes, encode_utf8(blocks[k - 1].1), state.1);
    }
}

/// What a search from `from` finds: a found position is the first at or
/// after `from` where the needle occurs, and nothing found means the needle
/// occurs nowhere at or after `from`.
proof fn lemma_find_from_first(hay: Seq<u8>, needle: Seq<u8>, from: int)
    requires
        0 <= from,
    ensures
        match find_from(hay, needle, from) {
            Some(at) => {
                &&& from <= at
                &&& at + needle.len() <= hay.len()
                &&& hay.subrange(at, at + needle.len()) == needle
                &&& forall|q: int|
                    from <= q < at ==> #[trigger] hay.subrange(q, q + needle.len()) != needle
            },
            None => forall|q: int|
                from <= q && q + needle.len() <= hay.len() ==> #[trigger] hay.subrange(
                    q,
                    q + needle.len(),
                ) != needle,
        },
    decreases hay.len() + 1 - from,
{
    if from + needle.len() <= hay.len() && hay.subrange(from, from + needle.len()) != needle {
        lemma_find_from_first(hay, needle, from + 1);
    }
}

/// Whether every range located among the first `k` ends at or before `q`.
pub open spec fn ranges_end_by(ranges: Seq<Option<(int, int)>>, k: int, q: int) -> bool {
    forall|i: int| 0 <= i < k && (#[trigger] ranges[i]) is Some ==> (ranges[i]->0).1 <= q
}

/// The range search keeps its ranges in order: each located block lies in the
/// text as its bytes, no later than the cursor; located ranges do not overlap
/// and come in block order; the cursor is the end of the last located range;
/// a located block is the first occurrence after the earlier located ranges,
/// and a block is not located only when it does not occur after them.
proof fn lemma_office_ranges_ordered(bytes: Seq<u8>, blocks: Seq<(Seq<char>, Seq<char>)>, k: int)
    requires
        0 <= k <= blocks.len(),
    ensures
        ({
            let rs = office_ranges_upto(bytes, blocks, k).0;
            let c = office_ranges_upto(bytes, blocks, k).1;
            &&& rs.len() == k
            &&& 0 <= c <= bytes.len()
            &&& forall|i: int|
                0 <= i < k && (#[trigger] rs[i]) is Some ==> {
                    let r = rs[i]->0;
                    &&& 0 <= r.0 <= r.1 <= c
                    &&& r.1 == r.0 + encode_utf8(blocks[i].1).len()
                    &&& bytes.subrange(r.0, r.1) == encode_utf8(blocks[i].1)
                }
            &&& forall|i: int, j: int|
                0 <= i < j < k && (#[trigger] rs[i]) is Some && (#[trigger] rs[j]) is Some
                    ==> (rs[i]->0).1 <= (rs[j]->0).0
            &&& forall|q: int| 0 <= q && #[trigger] ranges_end_by(rs, k, q) ==> c <= q
            &&& forall|i: int, q: int|
                0 <= i < k && (#[trigger] rs[i]) is Some && 0 <= q < (rs[i]->0).0
                    && #[trigger] ranges_end_by(rs, i, q) ==> bytes.subrange(
                    q,
                    q + encode_utf8(blocks[i].1).len(),
                ) != encode_utf8(blocks[i].1)
            &&& forall|i: int, q: int|
                0 <= i < k && (#[trigger] rs[i]) is None && 0 <= q && q + encode_utf8(
                    blocks[i].1,
                ).len() <= bytes.len() && #[trigger] ranges_end_by(rs, i, q) ==> bytes.subrange(
                    q,
                    q + encode_utf8(blocks[i].1).len(),
                ) != encode_utf8(blocks[i].1)
        }),
    decreases k,
{
    if k > 0 {
        lemma_office_ranges_ordered(bytes, blocks, k - 1);
        let prev = office_ranges_upto(bytes, blocks, k - 1);
        let rs0 = prev.0;
        let c0 = prev.1;
        let needle = encode_utf8(blocks[k - 1].1);
        lemma_find_from_first(bytes, needle, c0);
        let rs = office_ranges_upto(bytes, blocks, k).0;
        let c = office_ranges_upto(bytes, blocks, k).1;
        assert forall|i: int| 0 <= i < k - 1 implies rs[i] == rs0[i] by {}
        assert forall|i: int, q: int| 0 <= i <= k - 1 implies ranges_end_by(rs, i, q)
            == ranges_end_by(rs0, i, q) by {
            assert forall|x: int| 0 <= x < i implies rs[x] == rs0[x] by {}
        }
        assert forall|q: int| 0 <= q && #[trigger] ranges_end_by(rs, k, q) implies c <= q by {
            assert(ranges_end_by(rs0, k - 1, q)) by {
                assert forall|i: int| 0 <= i < k - 1 && (#[trigger] rs0[i]) is Some implies (rs0[i]->0).1
                    <= q by {
                    assert(rs[i] == rs0[i]);
                }
            }
            if rs[k - 1] is Some {
                assert((rs[k - 1]->0).1 <= q);
            }
        }
    }
}

/// Trimmed, non-empty lines of a text.
fn office_text_lines(text: &str) -> (lines: Vec<String>)
    ensures
        strings_view(lines@) == office_lines(text.spec_bytes()),
{
    let raw = split_newlines(text);
    let ghost raw_chars = split_bytes(text.spec_bytes(), 10u8).map_values(
        |p: Seq<u8>| decode_utf8(p),
    );
    assert(raw_chars.len() == raw@.len());
    let mut lines: Vec<String> = Vec::new();
    let mut i: usize = 0;
    while i < raw.len()
        invariant
            i <= raw@.len(),
            raw_chars.len() == raw@.len(),
            pieces_bytes(raw@) == split_bytes(text.spec_bytes(), 10u8),
            raw_chars == split_bytes(text.spec_bytes(), 10u8).map_values(
                |p: Seq<u8>| decode_utf8(p),
            ),
            strings_view(lines@) == nonempty_trimmed(raw_chars.subrange(0, i as int)),
        decreases raw@.len() - i,
    {
        let line = trim(raw[i]);
        proof {
            assert(pieces_bytes(raw@)[i as int] == raw@[i as int].spec_bytes());
            assert(raw_chars[i as int] == raw@[i as int]@);
            let next = raw_chars.subrange(0, i as int + 1);
            assert(next.drop_last() =~= raw_chars.subrange(0, i as int));
        }
        let ghost before = lines@;
        if line.unicode_len() > 0 {
            lines.push(line.to_owned());
            assert(strings_view(lines@) =~= strings_view(before).push(line@));
        }
        i = i + 1;
    }
    assert(raw_chars.subrange(0, i as int) =~= raw_chars);
    lines
}

/// Structured parts of office text: headings, captions and paragraphs, each
/// with the byte range where it occurs in the text, searched in order.
pub fn structured_office_parts(text: &str) -> (parts: Vec<ExtractionPart>)
    ensures
        office_parts(parts@, text.spec_bytes()),
{
    let lines = office_text_lines(text);
    let ghost all = strings_view(lines@);
    let mut blocks: Vec<(String, String)> = Vec::new();
    let mut paragraph: Vec<String> = Vec::new();
    let mut i: usize = 0;
    while i < lines.len()
        invariant
            i <= lines@.len(),
            all == strings_view(lines@),
            (pairs_view(blocks@), strings_view(paragraph@)) == office_blocks_upto(all, i as int),
        decreases lines@.len() - i,
    {
        let line = lines[i].as_str();
        assert(line@ == all[i as int]);
        match structured_office_line_kind(line) {
            Some(kind) => {
                push_office_paragraph(&mut blocks, &mut paragraph);
                assert(strings_view(paragraph@) =~= seq![]);
                if !starts_with(line, "---") {
                    let ghost before = blocks@;
                    blocks.push((kind, line.to_owned()));
                    assert(pairs_view(blocks@) =~= pairs_view(before).push((kind@, line@)));
                }
            },
            None => {
                let ghost before = paragraph@;
                paragraph.push(line.to_owned());
                assert(strings_view(paragraph@) =~= strings_view(before).push(line@));
            },
        }
        i = i + 1;
    }
    push_office_paragraph(&mut blocks, &mut paragraph);
    let ghost block_view = pairs_view(blocks@);
    assert(block_view == office_blocks(all));
    let bytes = text.as_bytes();
    let blen = bytes.len();
    let mut parts: Vec<ExtractionPart> = Vec::new();
    let mut cursor: usize = 0;
    let mut k: usize = 0;
    while k < blocks.len()
        invariant
            bytes@ == text.spec_bytes(),
            blen == bytes@.len(),
            block_view == pairs_view(blocks@),
            block_view == office_blocks(office_lines(text.spec_bytes())),
            k <= blocks@.len(),
            parts@.len() == k,
            cursor == office_ranges_upto(bytes@, block_view, k as int).1,
            cursor <= bytes@.len(),
            forall|j: int|
                0 <= j < k ==> {
                    let p = #[trigger] parts@[j];
                    let r = office_ranges_upto(bytes@, block_view, k as int).0[j];
                    &&& p.index == j
                    &&& p.kind@ == block_view[j].0
                    &&& p.text matches Some(t) && t@ == block_view[j].1
                    &&& match r {
                        Some(rr) => p.range matches Some(pr) && pr.start == rr.0 && pr.end == rr.1,
                        None => p.range is None,
                    }
                    &&& plain_provenance(p.provenance, "structured_office"@, seq!["office_oxide"@])
                    &&& p.segments is None
                },
        decreases blocks@.len() - k,
    {
        let kind = blocks[k].0.clone();
        let block = blocks[k].1.clone();
        let needle = block.as_str().as_bytes();
        let found = find_bytes(bytes, needle, cursor);
        proof {
            lemma_office_cursor(bytes@, block_view, k as int);
            lemma_find_from_bounds(bytes@, needle@, cursor as int);
            assert(needle@ == encode_utf8(block_view[k as int].1));
        }
        let range = match found {
            Some(at) => {
                let end = at + needle.len();
                cursor = end;
                Some(ExtractionTextRange { start: at, end })
            },
            None => None,
        };
        let engines = vec!["office_oxide".to_owned()];
        assert(strings_view(engines@) =~= seq!["office_oxide"@]);
        let part = ExtractionPart {
            index: k,
            kind,
            text: Some(block),
            range,
            provenance: Some(
                ExtractionPartProvenance {
                    method: "structured_office".to_owned(),
                    engines,
                    source_id: None,
                    page: None,
                    line: None,
                },
            ),
            segments: None,
        };
        parts.push(part);
        k = k + 1;
        proof {
            lemma_office_cursor(bytes@, block_view, k as int);
        }
    }
    parts
}



/// Whether every part among the first `k` that has a range ends at or before
/// byte `q`.
pub open spec fn located_ends_by(parts: Seq<ExtractionPart>, k: int, q: int) -> bool {
    forall|i: int| 0 <= i < k && (#[trigger] parts[i]).range is Some ==> (parts[i].range->0).end <= q
}

/// Structured office parts are located in the text in order: a part's range
/// holds exactly the bytes of its text; located parts do not overlap and come
/// in part order, each starting at or after the end of every earlier located
/// part; a located part is the first occurrence of its text after the earlier
/// located parts, and a part without a range has no occurrence there.
pub proof fn lemma_office_parts_in_order(parts: Seq<ExtractionPart>, bytes: Seq<u8>)
    requires
        office_parts(parts, bytes),
    ensures
        forall|k: int|
            0 <= k < parts.len() && (#[trigger] parts[k]).range is Some ==> {
                let r = parts[k].range->0;
                &&& r.start <= r.end <= bytes.len()
                &&& parts[k].text is Some
                &&& bytes.subrange(r.start as int, r.end as int) == encode_utf8((parts[k].text->0)@)
            },
        forall|j: int, k: int|
            0 <= j < k < parts.len() && (#[trigger] parts[j]).range is Some && (
            #[trigger] parts[k]).range is Some ==> (parts[j].range->0).end <= (
            parts[k].range->0).start,
        forall|k: int, q: int|
            0 <= k < parts.len() && (#[trigger] parts[k]).range is Some && 0 <= q < (
            parts[k].range->0).start && #[trigger] located_ends_by(parts, k, q) ==> bytes.subrange(
                q,
                q + encode_utf8((parts[k].text->0)@).len(),
            ) != encode_utf8((parts[k].text->0)@),
        forall|k: int, q: int|
            0 <= k < parts.len() && (#[trigger] parts[k]).range is None && 0 <= q && q + encode_utf8(
                (parts[k].text->0)@,
            ).len() <= bytes.len() && #[trigger] located_ends_by(parts, k, q) ==> bytes.subrange(
                q,
                q + encode_utf8((parts[k].text->0)@).len(),
            ) != encode_utf8((parts[k].text->0)@),
{
    let blocks = office_blocks(office_lines(bytes));
    let n = blocks.len() as int;
    lemma_office_ranges_ordered(bytes, blocks, n);
    let rs = office_ranges_upto(bytes, blocks, n).0;
    assert forall|k: int| 0 <= k < parts.len() implies {
        &&& (#[trigger] parts[k]).text is Some
        &&& (parts[k].text->0)@ == blocks[k].1
        &&& (parts[k].range is Some <==> rs[k] is Some)
        &&& parts[k].range is Some ==> (parts[k].range->0).start == (rs[k]->0).0 && (
        parts[k].range->0).end == (rs[k]->0).1
    } by {}
    assert forall|k: int, q: int| 0 <= k <= n implies #[trigger] located_ends_by(parts, k, q)
        == ranges_end_by(rs, k, q) by {
        assert forall|i: int| 0 <= i < k implies (parts[i].range is Some <==> rs[i] is Some) && (
        parts[i].range is Some ==> (parts[i].range->0).end == (rs[i]->0).1) by {
            assert(parts[i] == parts[i]);
        }
    }
}
/// Document from office text: its structured parts, with the text as
/// canonical text, when there is more than one part; else the plain text
/// document of the text.
pub fn office_document(text: String) -> (document: ExtractedDocument)
    ensures
        office_blocks(office_lines(encode_utf8(text@))).len() > 1 ==> {
            &&& document.canonical_text matches Some(t) && t@ == text@
            &&& office_parts(document.parts@, encode_utf8(text@))
        },
        office_blocks(office_lines(encode_utf8(text@))).len() <= 1 ==> text_document(
            document,
            text@,
        ),
{
    let parts = structured_office_parts(text.as_str());
    if parts.len() > 1 {
        return ExtractedDocument { canonical_text: Some(text), parts };
    }
    ExtractedDocument::from_text(text)
}

} // verus!
