//! Grammar-aware chunking: chunk boundaries follow the ends of syntax nodes.
use vstd::prelude::*;
use vstd::string::*;
use vstd::utf8::*;
use vstd::seq_lib::lemma_flatten_concat;

use crate::chunking::{chunk_with_delimiters, delimiter_chunks, memchunk_lengths, opt_bytes};
use crate::syntax::{
    extension_grammar, language_for_extension, opt_str, parsed_syntax_tree, syntax_tree, SyntaxNode, SyntaxTree,
};
use crate::text::{byte_slice, bytes_of, lemma_str_ends_are_boundaries, pieces_bytes};

verus! {

broadcast use {vstd::utf8::encode_utf8_valid_utf8, vstd::std_specs::vec::axiom_vec_index_decreases};

/// Length of a byte range, zero when it is empty or reversed.
pub open spec fn span_len(start: usize, end: usize) -> int {
    if start < end {
        end - start
    } else {
        0
    }
}

/// Byte ranges that chunking collects from a node: the node itself when it
/// has no named children, or when it is not the root and fits the target
/// size; otherwise the ranges of its children in order.
pub open spec fn node_chunk_ranges(node: SyntaxNode, target_size: usize, is_root: bool) -> Seq<
    (usize, usize),
>
    decreases node, 1int, 0int,
{
    if node.children.len() == 0 {
        seq![(node.start, node.end)]
    } else if !is_root && span_len(node.start, node.end) <= target_size {
        seq![(node.start, node.end)]
    } else {
        children_chunk_ranges(node, target_size, node.children.len() as int)
    }
}

/// Byte ranges collected from the first `k` named children of a node.
pub open spec fn children_chunk_ranges(node: SyntaxNode, target_size: usize, k: int) -> Seq<
    (usize, usize),
>
    decreases node, 0int, k,
{
    if k <= 0 || k > node.children.len() {
        seq![]
    } else {
        children_chunk_ranges(node, target_size, k - 1) + node_chunk_ranges(
            node.children[k - 1],
            target_size,
            false,
        )
    }
}

/// Collects the byte ranges of a node into `ranges`.
fn collect_chunk_ranges(
    node: &SyntaxNode,
    target_size: usize,
    is_root: bool,
    ranges: &mut Vec<(usize, usize)>,
)
    ensures
        final(ranges)@ == old(ranges)@ + node_chunk_ranges(*node, target_size, is_root),
    decreases node,
{
    let ghost before = ranges@;
    if node.children.len() == 0 {
        ranges.push((node.start, node.end));
        return ;
    }
    let len = if node.start < node.end {
        node.end - node.start
    } else {
        0
    };
    if !is_root && len <= target_size {
        ranges.push((node.start, node.end));
        return ;
    }
    let mut i: usize = 0;
    while i < node.children.len()
        invariant
            i <= node.children.len(),
            ranges@ == before + children_chunk_ranges(*node, target_size, i as int),
        decreases node.children.len() - i,
    {
        collect_chunk_ranges(&node.children[i], target_size, false, ranges);
        assert(ranges@ =~= before + children_chunk_ranges(*node, target_size, i as int + 1));
        i = i + 1;
    }
}


/// Ranges whose ends never decrease and lie on char boundaries of the text.
pub open spec fn ranges_fit(bytes: Seq<u8>, ranges: Seq<(usize, usize)>) -> bool {
    &&& forall|i: int| 0 <= i < ranges.len() ==> (#[trigger] ranges[i]).1 <= bytes.len()
    &&& forall|i: int| 0 <= i < ranges.len() ==> is_char_boundary(bytes, (#[trigger] ranges[i]).1 as int)
    &&& forall|i: int| 0 < i < ranges.len() ==> ranges[i - 1].1 <= (#[trigger] ranges[i]).1
}

/// Grouping state after the first `i` ranges: the closed spans, and the start
/// and end of the open span. A range whose end lies more than the target size
/// past the open start closes the open span.
pub open spec fn group_spans_upto(ranges: Seq<(usize, usize)>, target_size: usize, i: int) -> (
    Seq<(int, int)>,
    int,
    int,
)
    decreases i,
{
    if i <= 1 {
        (seq![], 0, ranges[0].1 as int)
    } else {
        let state = group_spans_upto(ranges, target_size, i - 1);
        let next_end = ranges[i - 1].1 as int;
        if next_end - state.1 > target_size {
            (state.0.push((state.1, state.2)), state.2, next_end)
        } else {
            (state.0, state.1, next_end)
        }
    }
}

/// Spans of the chunks: the closed spans, then the open span extended to the
/// end of the text.
pub open spec fn chunk_spans(ranges: Seq<(usize, usize)>, target_size: usize, len: int) -> Seq<
    (int, int),
> {
    let state = group_spans_upto(ranges, target_size, ranges.len() as int);
    state.0.push((state.1, len))
}

/// Chunks of one span: the span itself when it fits the target size, else its
/// delimiter chunks.
pub open spec fn span_chunks(
    bytes: Seq<u8>,
    span: (int, int),
    delimiters: Option<Seq<u8>>,
    target_size: usize,
) -> Seq<Seq<u8>> {
    let text = bytes.subrange(span.0, span.1);
    if text.len() <= target_size {
        seq![text]
    } else {
        delimiter_chunks(text, memchunk_lengths(text, target_size, delimiters))
    }
}

/// Chunks of the first `k` spans, in order.
pub open spec fn spans_chunks(
    bytes: Seq<u8>,
    spans: Seq<(int, int)>,
    delimiters: Option<Seq<u8>>,
    target_size: usize,
    k: int,
) -> Seq<Seq<u8>>
    decreases k,
{
    if k <= 0 {
        seq![]
    } else {
        spans_chunks(bytes, spans, delimiters, target_size, k - 1) + span_chunks(
            bytes,
            spans[k - 1],
            delimiters,
            target_size,
        )
    }
}

/// Bytes of the chunks that grammar-aware chunking gives for a text and its
/// syntax tree, or `None` when the tree has errors or its ranges do not fit
/// the text.
pub open spec fn tree_chunks(
    bytes: Seq<u8>,
    tree: SyntaxTree,
    delimiters: Option<Seq<u8>>,
    target_size: usize,
) -> Option<Seq<Seq<u8>>> {
    let ranges = node_chunk_ranges(tree.root, target_size, true);
    if tree.has_error || ranges.len() == 0 || !ranges_fit(bytes, ranges) {
        None
    } else {
        let spans = chunk_spans(ranges, target_size, bytes.len() as int);
        Some(spans_chunks(bytes, spans, delimiters, target_size, spans.len() as int))
    }
}

/// Pushes a content slice, sub-chunking when it exceeds target size.
fn push_chunk<'a>(
    chunks: &mut Vec<&'a str>,
    content: &'a str,
    start: usize,
    end: usize,
    delimiters: Option<&[u8]>,
    target_size: usize,
)
    requires
        target_size > 0,
        start <= end <= content.spec_bytes().len(),
        is_char_boundary(content.spec_bytes(), start as int),
        is_char_boundary(content.spec_bytes(), end as int),
    ensures
        pieces_bytes(final(chunks)@) == pieces_bytes(old(chunks)@) + span_chunks(
            bytes_of(content),
            (start as int, end as int),
            opt_bytes(delimiters),
            target_size,
        ),
        pieces_bytes(final(chunks)@).flatten() == pieces_bytes(old(chunks)@).flatten()
            + content.spec_bytes().subrange(start as int, end as int),
{
    let ghost before = chunks@;
    let text = byte_slice(content, start, end);
    let ghost piece = content.spec_bytes().subrange(start as int, end as int);
    if text.as_bytes().len() <= target_size {
        chunks.push(text);
        assert(pieces_bytes(chunks@) =~= pieces_bytes(before) + seq![piece]);
        proof {
            lemma_flatten_concat(pieces_bytes(before), seq![piece]);
            seq![piece].lemma_flatten_one_element();
        }
        return ;
    }
    let mut sub = chunk_with_delimiters(text, delimiters, target_size);
    let ghost added = sub@;
    chunks.append(&mut sub);
    assert(pieces_bytes(chunks@) =~= pieces_bytes(before) + pieces_bytes(added));
    proof {
        lemma_flatten_concat(pieces_bytes(before), pieces_bytes(added));
    }
}


/// Chunks of spans depend only on the spans they cover.
proof fn lemma_spans_chunks_prefix(
    bytes: Seq<u8>,
    a: Seq<(int, int)>,
    b: Seq<(int, int)>,
    delimiters: Option<Seq<u8>>,
    target_size: usize,
    k: int,
)
    requires
        0 <= k <= a.len(),
        k <= b.len(),
        forall|i: int| 0 <= i < k ==> a[i] == b[i],
    ensures
        spans_chunks(bytes, a, delimiters, target_size, k) == spans_chunks(
            bytes,
            b,
            delimiters,
            target_size,
            k,
        ),
    decreases k,
{
    if k > 0 {
        lemma_spans_chunks_prefix(bytes, a, b, delimiters, target_size, k - 1);
    }
}

/// Checks that the range ends never decrease, stay within the text and lie on
/// char boundaries.
fn check_ranges_fit(content: &str, ranges: &Vec<(usize, usize)>) -> (fit: bool)
    ensures
        fit == ranges_fit(content.spec_bytes(), ranges@),
{
    let len = content.as_bytes().len();
    let mut k: usize = 0;
    while k < ranges.len()
        invariant
            len == content.spec_bytes().len(),
            k <= ranges@.len(),
            ranges_fit(content.spec_bytes(), ranges@.subrange(0, k as int)),
        decreases ranges@.len() - k,
    {
        let end = ranges[k].1;
        let ghost prefix = ranges@.subrange(0, k as int + 1);
        if end > len || !content.is_char_boundary(end) || (k > 0 && ranges[k - 1].1 > end) {
            assert(prefix[k as int] == ranges@[k as int]);
            if k > 0 {
                assert(prefix[k as int - 1] == ranges@[k as int - 1]);
            }
            assert(!ranges_fit(content.spec_bytes(), prefix));
            return false;
        }
        assert forall|i: int| 0 <= i < prefix.len() implies (#[trigger] prefix[i]).1 <= len
            && is_char_boundary(content.spec_bytes(), prefix[i].1 as int) && (i > 0 ==> prefix[i
            - 1].1 <= prefix[i].1) by {
            if i < k {
                assert(prefix[i] == ranges@.subrange(0, k as int)[i]);
                if i > 0 {
                    assert(prefix[i - 1] == ranges@.subrange(0, k as int)[i - 1]);
                }
            }
        }
        k = k + 1;
    }
    assert(ranges@.subrange(0, k as int) =~= ranges@);
    true
}

/// Grammar-aware chunking of `content` along the nodes of its syntax tree.
///
/// The ranges of the tree are grouped so that a chunk closes once the next
/// range would carry it past the target size; the first chunk starts at the
/// beginning of the text and the last one runs to its end, and chunks larger
/// than the target size are cut again at delimiters. Returns `None` when the
/// tree has errors or its ranges do not fit the text.
pub fn chunk_tree<'a>(
    content: &'a str,
    tree: &SyntaxTree,
    delimiters: Option<&[u8]>,
    target_size: usize,
) -> (chunks: Option<Vec<&'a str>>)
    requires
        target_size > 0,
    ensures
        match chunks {
            None => tree_chunks(bytes_of(content), *tree, opt_bytes(delimiters), target_size) is None,
            Some(c) => {
                &&& tree_chunks(bytes_of(content), *tree, opt_bytes(delimiters), target_size)
                    == Some(pieces_bytes(c@))
                &&& pieces_bytes(c@).flatten() == bytes_of(content)
            },
        },
{
    if tree.has_error {
        return None;
    }
    let mut ranges: Vec<(usize, usize)> = Vec::new();
    collect_chunk_ranges(&tree.root, target_size, true, &mut ranges);
    assert(ranges@ =~= node_chunk_ranges(tree.root, target_size, true));
    if ranges.len() == 0 {
        return None;
    }
    if !check_ranges_fit(content, &ranges) {
        return None;
    }
    let ghost bytes = content.spec_bytes();
    let ghost opt = opt_bytes(delimiters);
    let len = content.as_bytes().len();
    proof {
        lemma_str_ends_are_boundaries(content);
        assert(bytes.subrange(0, 0) =~= Seq::<u8>::empty());
        assert(Seq::<Seq<u8>>::empty().flatten() == Seq::<u8>::empty());
    }
    let mut chunks: Vec<&'a str> = Vec::new();
    let mut chunk_start: usize = 0;
    let mut chunk_end: usize = ranges[0].1;
    let ghost mut spans: Seq<(int, int)> = seq![];
    let mut i: usize = 1;
    while i < ranges.len()
        invariant
            1 <= i <= ranges@.len(),
            bytes == content.spec_bytes(),
            len == bytes.len(),
            valid_utf8(bytes),
            is_char_boundary(bytes, len as int),
            target_size > 0,
            opt == opt_bytes(delimiters),
            ranges_fit(bytes, ranges@),
            group_spans_upto(ranges@, target_size, i as int) == (
                spans,
                chunk_start as int,
                chunk_end as int,
            ),
            chunk_start <= chunk_end <= len,
            chunk_end == ranges@[i - 1].1,
            is_char_boundary(bytes, chunk_start as int),
            pieces_bytes(chunks@) == spans_chunks(bytes, spans, opt, target_size, spans.len() as int),
            pieces_bytes(chunks@).flatten() == bytes.subrange(0, chunk_start as int),
        decreases ranges@.len() - i,
    {
        let end = ranges[i].1;
        assert(ranges@[i as int - 1].1 <= ranges@[i as int].1);
        if end - chunk_start > target_size {
            let ghost before = chunks@;
            push_chunk(&mut chunks, content, chunk_start, chunk_end, delimiters, target_size);
            proof {
                let next = spans.push((chunk_start as int, chunk_end as int));
                lemma_spans_chunks_prefix(bytes, spans, next, opt, target_size, spans.len() as int);
                assert(bytes.subrange(0, chunk_start as int) + bytes.subrange(
                    chunk_start as int,
                    chunk_end as int,
                ) =~= bytes.subrange(0, chunk_end as int));
                spans = next;
            }
            chunk_start = chunk_end;
        }
        chunk_end = end;
        i = i + 1;
    }
    let ghost before = chunks@;
    push_chunk(&mut chunks, content, chunk_start, len, delimiters, target_size);
    proof {
        let all = spans.push((chunk_start as int, len as int));
        lemma_spans_chunks_prefix(bytes, spans, all, opt, target_size, spans.len() as int);
        assert(all == chunk_spans(ranges@, target_size, len as int));
        assert(bytes.subrange(0, chunk_start as int) + bytes.subrange(chunk_start as int, len as int)
            =~= bytes);
    }
    Some(chunks)
}


/// Grammar chunks of a text: the chunks of the named parse of the text under
/// the grammar of its extension; `None` without an extension, without a
/// grammar for it, without a tree, or when [`tree_chunks`] gives none.
pub open spec fn spec_grammar_chunks(
    content: Seq<char>,
    bytes: Seq<u8>,
    delimiters: Option<Seq<u8>>,
    target_size: usize,
    file_extension: Option<Seq<char>>,
) -> Option<Seq<Seq<u8>>> {
    match extension_grammar(file_extension) {
        None => None,
        Some(g) => match parsed_syntax_tree(content, g) {
            None => None,
            Some(tree) => tree_chunks(bytes, tree, delimiters, target_size),
        },
    }
}

/// Bytes of each chunk of an optional chunk list.
pub open spec fn opt_pieces(chunks: Option<Vec<&str>>) -> Option<Seq<Seq<u8>>> {
    match chunks {
        Some(c) => Some(pieces_bytes(c@)),
        None => None,
    }
}

/// Grammar-aware chunking via tree-sitter: the chunks [`chunk_tree`] gives
/// for the named parse of the content under the grammar of the extension.
///
/// Returns `None` when no extension is given, no grammar matches it, parsing
/// fails, the syntax tree contains errors or its ranges do not fit. Chunks
/// that come back give the content back when concatenated.
pub fn chunk_content<'a>(
    content: &'a str,
    delimiters: Option<&[u8]>,
    target_size: usize,
    file_extension: Option<&str>,
) -> (chunks: Option<Vec<&'a str>>)
    requires
        target_size > 0,
    ensures
        opt_pieces(chunks) == spec_grammar_chunks(
            content@,
            bytes_of(content),
            opt_bytes(delimiters),
            target_size,
            opt_str(file_extension),
        ),
        chunks matches Some(c) ==> pieces_bytes(c@).flatten() == bytes_of(content),
{
    let extension = match file_extension {
        Some(e) => e,
        None => return None,
    };
    let grammar = match language_for_extension(extension) {
        Some(g) => g,
        None => return None,
    };
    let tree = match syntax_tree(content, grammar) {
        Some(t) => t,
        None => return None,
    };
    chunk_tree(content, &tree, delimiters, target_size)
}

} // verus!
