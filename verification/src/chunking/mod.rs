//! Text chunking: splits content into chunks near a target byte size.
//!
//! Chunks are cut by `memchunk` at delimiter bytes and then moved forward to
//! the next UTF-8 character boundary, so every chunk is valid text and the
//! chunks of a text, concatenated in order, give back the whole text.
use vstd::prelude::*;
use vstd::string::*;
use vstd::utf8::*;

pub mod tree;

use crate::syntax::opt_str;
use crate::text::{byte_slice, bytes_of, lemma_str_ends_are_boundaries, pieces_bytes, str_eq};
use crate::chunking::tree::{chunk_content, spec_grammar_chunks};

verus! {

broadcast use vstd::utf8::encode_utf8_valid_utf8;

/// Text chunking configuration.
pub struct ChunkingConfig {
    /// Optional target chunk size in bytes.
    pub target_size: Option<usize>,
    /// Delimiter bytes keyed by detected file type label or MIME type; the
    /// first entry whose key matches is used, and with unique keys
    /// ([`unique_ft_keys`]) that is the one entry for the key.
    pub delimiters_by_ft: Vec<(String, Vec<u8>)>,
    /// Optional delimiter bytes for chunk boundary selection.
    pub delimiters: Option<Vec<u8>>,
}

impl ChunkingConfig {
    /// The default configuration: no size, no delimiters.
    pub fn default() -> (config: ChunkingConfig)
        ensures
            unique_ft_keys(config.delimiters_by_ft@),
            config.target_size is None,
            config.delimiters_by_ft@.len() == 0,
            config.delimiters is None,
    {
        ChunkingConfig { target_size: None, delimiters_by_ft: Vec::new(), delimiters: None }
    }
}

/// Target size `memchunk` uses when none is configured.
pub open spec fn default_target_size_spec() -> usize {
    4096
}

/// Name for the chunk lengths that `memchunk` yields for a text, a target
/// size and optional delimiters (its default delimiters when `None`).
pub uninterp spec fn memchunk_lengths(
    text: Seq<u8>,
    target_size: usize,
    delimiters: Option<Seq<u8>>,
) -> Seq<usize>;

/// Sum of the first `k` lengths.
pub open spec fn prefix_sum(lengths: Seq<usize>, k: int) -> int
    decreases k,
{
    if k <= 0 {
        0
    } else {
        prefix_sum(lengths, k - 1) + lengths[k - 1]
    }
}

/// Lengths that cut a text of `total` bytes into non-empty consecutive pieces.
pub open spec fn valid_lengths(lengths: Seq<usize>, total: int) -> bool {
    &&& forall|i: int| 0 <= i < lengths.len() ==> lengths[i] > 0
    &&& prefix_sum(lengths, lengths.len() as int) == total
}

/// Optional byte slice viewed as an optional byte sequence.
pub open spec fn opt_bytes(delimiters: Option<&[u8]>) -> Option<Seq<u8>> {
    match delimiters {
        Some(d) => Some(d@),
        None => None,
    }
}

/// `memchunk::DEFAULT_TARGET_SIZE`, which memchunk defines as 4096.
#[verifier::external_body]
fn memchunk_default_target_size() -> (size: usize)
    ensures
        size == default_target_size_spec(),
{
    memchunk::DEFAULT_TARGET_SIZE
}

/// Runs `memchunk::chunk(text).size(target_size).consecutive().forward_fallback()`
/// with the given delimiters (memchunk's own default delimiters when `None`)
/// and returns the length of each chunk it yields.
///
/// The crate's iterator hands out consecutive slices `text[pos..split_at]`
/// from position 0 until the end of the text, and each split point lies
/// strictly after the previous one when the target size is positive: the
/// lengths are positive and sum to the text length.
#[verifier::external_body]
fn memchunk_chunk_lengths(text: &[u8], target_size: usize, delimiters: Option<&[u8]>) -> (lengths:
    Vec<usize>)
    requires
        target_size > 0,
    ensures
        lengths@ == memchunk_lengths(text@, target_size, opt_bytes(delimiters)),
        valid_lengths(lengths@, text@.len() as int),
{
    memchunk::chunk(text).size(target_size).consecutive().forward_fallback().delimiters(
        delimiters.unwrap_or(memchunk::DEFAULT_DELIMITERS),
    ).map(|chunk| chunk.len()).collect()
}

/// First char boundary at or after `index`, or the end of the bytes.
pub open spec fn boundary_from(bytes: Seq<u8>, index: int) -> int
    decreases bytes.len() - index,
{
    if index >= bytes.len() {
        bytes.len() as int
    } else if is_char_boundary(bytes, index) {
        index
    } else {
        boundary_from(bytes, index + 1)
    }
}

/// The char boundary that `next_char_boundary` moves an index to.
pub open spec fn spec_next_char_boundary(bytes: Seq<u8>, index: int) -> int {
    boundary_from(bytes, if index < bytes.len() { index } else { bytes.len() as int })
}

/// Properties of `boundary_from`: it is a boundary at or after its start.
pub proof fn lemma_boundary_from(bytes: Seq<u8>, index: int)
    requires
        valid_utf8(bytes),
        0 <= index,
    ensures
        index <= bytes.len() ==> index <= boundary_from(bytes, index),
        boundary_from(bytes, index) <= bytes.len(),
        is_char_boundary(bytes, boundary_from(bytes, index)),
        forall|j: int|
            index <= j < boundary_from(bytes, index) ==> !is_char_boundary(bytes, j),
    decreases bytes.len() - index,
{
    is_char_boundary_start_end_of_seq(bytes);
    if index >= bytes.len() {
    } else if is_char_boundary(bytes, index) {
    } else {
        lemma_boundary_from(bytes, index + 1);
    }
}

/// `boundary_from` never moves backwards when its start moves forwards.
pub proof fn lemma_boundary_from_monotone(bytes: Seq<u8>, a: int, b: int)
    requires
        valid_utf8(bytes),
        0 <= a <= b,
    ensures
        boundary_from(bytes, a) <= boundary_from(bytes, b),
    decreases b - a,
{
    lemma_boundary_from(bytes, a);
    lemma_boundary_from(bytes, b);
    if a == b {
    } else if a >= bytes.len() {
    } else if is_char_boundary(bytes, a) {
    } else {
        lemma_boundary_from_monotone(bytes, a + 1, b);
    }
}

/// Moves index forward to valid UTF-8 boundary.
pub fn next_char_boundary(content: &str, index: usize) -> (boundary: usize)
    ensures
        boundary == spec_next_char_boundary(content.spec_bytes(), index as int),
        boundary <= content.spec_bytes().len(),
        is_char_boundary(content.spec_bytes(), boundary as int),
{
    let ghost bytes = content.spec_bytes();
    let len = content.as_bytes().len();
    let mut index = if index < len {
        index
    } else {
        len
    };
    let ghost first = index;
    while index < len && !content.is_char_boundary(index)
        invariant
            len == bytes.len(),
            bytes == content.spec_bytes(),
            first <= index <= len,
            boundary_from(bytes, index as int) == boundary_from(bytes, first as int),
        decreases len - index,
    {
        index = index + 1;
    }
    proof {
        lemma_boundary_from(bytes, index as int);
    }
    index
}

/// Boundary after the first `k` memchunk pieces, moved to a char boundary.
pub open spec fn chunk_boundary(bytes: Seq<u8>, lengths: Seq<usize>, k: int) -> int {
    if k <= 0 {
        0
    } else {
        spec_next_char_boundary(bytes, prefix_sum(lengths, k))
    }
}

/// Bytes of the chunks produced from the first `k` memchunk pieces.
pub open spec fn delimiter_chunks_upto(bytes: Seq<u8>, lengths: Seq<usize>, k: int) -> Seq<
    Seq<u8>,
>
    decreases k,
{
    if k <= 0 {
        seq![]
    } else {
        let before = delimiter_chunks_upto(bytes, lengths, k - 1);
        let start = chunk_boundary(bytes, lengths, k - 1);
        let end = chunk_boundary(bytes, lengths, k);
        if start < end {
            before.push(bytes.subrange(start, end))
        } else {
            before
        }
    }
}

/// Bytes of the chunks that delimiter chunking produces for a text.
pub open spec fn delimiter_chunks(bytes: Seq<u8>, lengths: Seq<usize>) -> Seq<Seq<u8>> {
    delimiter_chunks_upto(bytes, lengths, lengths.len() as int)
}

/// Prefix sums grow with the number of summed lengths.
pub proof fn lemma_prefix_sum_monotone(lengths: Seq<usize>, a: int, b: int)
    requires
        0 <= a <= b <= lengths.len(),
    ensures
        prefix_sum(lengths, a) <= prefix_sum(lengths, b),
    decreases b - a,
{
    if a < b {
        lemma_prefix_sum_monotone(lengths, a, b - 1);
    }
}

/// The delimiter chunks of the first `k` pieces concatenate to the text up to
/// the `k`-th chunk boundary.
pub proof fn lemma_delimiter_chunks_cover(bytes: Seq<u8>, lengths: Seq<usize>, k: int)
    requires
        valid_utf8(bytes),
        valid_lengths(lengths, bytes.len() as int),
        0 <= k <= lengths.len(),
    ensures
        delimiter_chunks_upto(bytes, lengths, k).flatten() == bytes.subrange(
            0,
            chunk_boundary(bytes, lengths, k),
        ),
        0 <= chunk_boundary(bytes, lengths, k) <= bytes.len(),
        forall|i: int|
            0 <= i < delimiter_chunks_upto(bytes, lengths, k).len() ==> #[trigger] delimiter_chunks_upto(
                bytes,
                lengths,
                k,
            )[i].len() > 0,
    decreases k,
{
    if k == 0 {
        assert(bytes.subrange(0, 0) =~= Seq::<u8>::empty());
    } else {
        lemma_delimiter_chunks_cover(bytes, lengths, k - 1);
        lemma_prefix_sum_monotone(lengths, k - 1, k);
        lemma_prefix_sum_monotone(lengths, k, lengths.len() as int);
        lemma_prefix_sum_monotone(lengths, 0, k - 1);
        let a = chunk_boundary(bytes, lengths, k - 1);
        let b = chunk_boundary(bytes, lengths, k);
        lemma_boundary_from(bytes, prefix_sum(lengths, k));
        if k - 1 > 0 {
            lemma_boundary_from_monotone(bytes, prefix_sum(lengths, k - 1), prefix_sum(lengths, k));
        }
        assert(a <= b);
        let before = delimiter_chunks_upto(bytes, lengths, k - 1);
        if a < b {
            before.lemma_flatten_push(bytes.subrange(a, b));
            assert(bytes.subrange(0, a) + bytes.subrange(a, b) =~= bytes.subrange(0, b));
        }
    }
}

/// Splits content with memchunk and returns chunks ending on char boundaries.
pub fn chunk_with_delimiters<'a>(content: &'a str, delimiters: Option<&[u8]>, target_size: usize) -> (chunks: Vec<&'a str>)
    requires
        target_size > 0,
    ensures
        pieces_bytes(chunks@) == delimiter_chunks(
            bytes_of(content),
            memchunk_lengths(bytes_of(content), target_size, opt_bytes(delimiters)),
        ),
        pieces_bytes(chunks@).flatten() == bytes_of(content),
        forall|i: int| 0 <= i < chunks@.len() ==> (#[trigger] chunks@[i]).spec_bytes().len() > 0,
{
    let ghost bytes = content.spec_bytes();
    let raw = content.as_bytes();
    let total = raw.len();
    let lengths = memchunk_chunk_lengths(raw, target_size, delimiters);
    let mut chunks: Vec<&'a str> = Vec::new();
    let mut start: usize = 0;
    let mut offset: usize = 0;
    let mut i: usize = 0;
    proof {
        lemma_str_ends_are_boundaries(content);
    }
    while i < lengths.len()
        invariant
            bytes == content.spec_bytes(),
            raw@ == bytes,
            total == raw@.len(),
            valid_utf8(bytes),
            valid_lengths(lengths@, bytes.len() as int),
            is_char_boundary(bytes, start as int),
            start <= bytes.len(),
            i <= lengths@.len(),
            offset == prefix_sum(lengths@, i as int),
            start == chunk_boundary(bytes, lengths@, i as int),
            pieces_bytes(chunks@) == delimiter_chunks_upto(bytes, lengths@, i as int),
        decreases lengths@.len() - i,
    {
        proof {
            lemma_prefix_sum_monotone(lengths@, i as int + 1, lengths@.len() as int);
            lemma_delimiter_chunks_cover(bytes, lengths@, i as int);
            lemma_delimiter_chunks_cover(bytes, lengths@, i as int + 1);
            assert(prefix_sum(lengths@, i as int + 1) == offset + lengths@[i as int]);
        }
        let raw_end = offset + lengths[i];
        let end = next_char_boundary(content, raw_end);
        proof {
            lemma_boundary_from(bytes, raw_end as int);
            if i > 0 {
                lemma_boundary_from_monotone(bytes, offset as int, raw_end as int);
            } else {
                lemma_boundary_from(bytes, raw_end as int);
            }
            is_char_boundary_start_end_of_seq(bytes);
        }
        if start < end {
            let piece = byte_slice(content, start, end);
            let ghost before = chunks@;
            chunks.push(piece);
            assert(pieces_bytes(chunks@) =~= pieces_bytes(before).push(bytes.subrange(start as int, end as int)));
        }
        start = end;
        offset = raw_end;
        i = i + 1;
    }
    proof {
        lemma_delimiter_chunks_cover(bytes, lengths@, lengths@.len() as int);
        lemma_boundary_from(bytes, bytes.len() as int);
        if lengths@.len() == 0 {
            assert(bytes.subrange(0, 0) =~= bytes);
        } else {
            assert(bytes.subrange(0, bytes.len() as int) =~= bytes);
        }
        assert forall|j: int| 0 <= j < chunks@.len() implies (#[trigger] chunks@[j]).spec_bytes().len() > 0 by {
            assert(pieces_bytes(chunks@)[j] == chunks@[j].spec_bytes());
        }
    }
    chunks
}


/// Whether no two per-type delimiter entries share a key.
pub open spec fn unique_ft_keys(entries: Seq<(String, Vec<u8>)>) -> bool {
    forall|i: int, j: int| 0 <= i < j < entries.len() ==> #[trigger] entries[i].0@ != #[trigger] entries[j].0@
}

/// Delimiters of the first entry, from the `k`-th on, whose key is `key`.
pub open spec fn ft_delimiters_from(entries: Seq<(String, Vec<u8>)>, key: Seq<char>, k: int) -> Option<
    Seq<u8>,
>
    decreases entries.len() - k,
{
    if k < 0 || k >= entries.len() {
        None
    } else if entries[k].0@ == key {
        Some(entries[k].1@)
    } else {
        ft_delimiters_from(entries, key, k + 1)
    }
}

/// With unique keys, the lookup of a key finds the one entry that has it,
/// as a map would.
pub proof fn lemma_unique_ft_lookup(entries: Seq<(String, Vec<u8>)>, i: int)
    requires
        unique_ft_keys(entries),
        0 <= i < entries.len(),
    ensures
        ft_delimiters_from(entries, entries[i].0@, 0) == Some(entries[i].1@),
{
    lemma_ft_lookup_from(entries, i, 0);
}

proof fn lemma_ft_lookup_from(entries: Seq<(String, Vec<u8>)>, i: int, k: int)
    requires
        unique_ft_keys(entries),
        0 <= k <= i < entries.len(),
    ensures
        ft_delimiters_from(entries, entries[i].0@, k) == Some(entries[i].1@),
    decreases i - k,
{
    if k < i {
        assert(entries[k].0@ != entries[i].0@);
        lemma_ft_lookup_from(entries, i, k + 1);
    }
}

/// General delimiters of a configuration.
pub open spec fn general_delimiters(config: ChunkingConfig) -> Option<Seq<u8>> {
    match config.delimiters {
        Some(d) => Some(d@),
        None => None,
    }
}

/// Delimiters a configuration selects under a file type key: those keyed by
/// it, else the general ones.
pub open spec fn config_delimiters(config: ChunkingConfig, key: Option<Seq<char>>) -> Option<Seq<u8>> {
    let by_ft = match key {
        Some(e) => ft_delimiters_from(config.delimiters_by_ft@, e, 0),
        None => None,
    };
    match by_ft {
        Some(d) => Some(d),
        None => general_delimiters(config),
    }
}

/// Delimiters a configuration selects for a detected file type: those keyed
/// by its label, else those keyed by its MIME type, else the general ones.
pub open spec fn type_delimiters(config: ChunkingConfig, label: Seq<char>, mime_type: Seq<char>) -> Option<Seq<u8>> {
    match ft_delimiters_from(config.delimiters_by_ft@, label, 0) {
        Some(d) => Some(d),
        None => config_delimiters(config, Some(mime_type)),
    }
}

/// Target size a configuration selects: its positive target size, else the
/// default.
pub open spec fn config_target_size(config: ChunkingConfig) -> usize {
    match config.target_size {
        Some(size) => if size > 0 {
            size
        } else {
            default_target_size_spec()
        },
        None => default_target_size_spec(),
    }
}

/// Optional string slice viewed as optional characters.
pub open spec fn opt_chars(s: Option<&str>) -> Option<Seq<char>> {
    match s {
        Some(e) => Some(e@),
        None => None,
    }
}

/// Resolves configured chunk size, falling back to memchunk default.
pub fn target_size_from_config(config: &ChunkingConfig) -> (size: usize)
    ensures
        size == config_target_size(*config),
        size > 0,
{
    match config.target_size {
        Some(size) => if size > 0 {
            size
        } else {
            memchunk_default_target_size()
        },
        None => memchunk_default_target_size(),
    }
}

/// Delimiters of the first per-type entry keyed by `key`.
fn ft_delimiters<'a>(config: &'a ChunkingConfig, key: &str) -> (delimiters: Option<&'a [u8]>)
    ensures
        opt_bytes(delimiters) == ft_delimiters_from(config.delimiters_by_ft@, key@, 0),
{
    let mut k: usize = 0;
    while k < config.delimiters_by_ft.len()
        invariant
            k <= config.delimiters_by_ft@.len(),
            ft_delimiters_from(config.delimiters_by_ft@, key@, 0) == ft_delimiters_from(
                config.delimiters_by_ft@,
                key@,
                k as int,
            ),
        decreases config.delimiters_by_ft@.len() - k,
    {
        let entry = &config.delimiters_by_ft[k];
        assert(*entry == config.delimiters_by_ft@[k as int]);
        if str_eq(entry.0.as_str(), key) {
            return Some(entry.1.as_slice());
        }
        k = k + 1;
    }
    None
}

/// General delimiters of a configuration, as a slice.
fn general_delimiter_slice(config: &ChunkingConfig) -> (delimiters: Option<&[u8]>)
    ensures
        opt_bytes(delimiters) == general_delimiters(*config),
{
    match &config.delimiters {
        Some(d) => Some(d.as_slice()),
        None => None,
    }
}

/// Delimiters configured under a file type key, else the general delimiters.
pub fn delimiters_from_config<'a>(config: &'a ChunkingConfig, file_type: Option<&str>) -> (delimiters: Option<
    &'a [u8],
>)
    ensures
        opt_bytes(delimiters) == config_delimiters(*config, opt_chars(file_type)),
{
    if let Some(key) = file_type {
        if let Some(d) = ft_delimiters(config, key) {
            return Some(d);
        }
    }
    general_delimiter_slice(config)
}

/// Delimiters configured for a detected file type: keyed by its label, else
/// by its MIME type, else the general delimiters.
pub fn delimiters_for_type<'a>(config: &'a ChunkingConfig, label: &str, mime_type: &str) -> (delimiters: Option<
    &'a [u8],
>)
    ensures
        opt_bytes(delimiters) == type_delimiters(*config, label@, mime_type@),
{
    if let Some(d) = ft_delimiters(config, label) {
        return Some(d);
    }
    delimiters_from_config(config, Some(mime_type))
}

/// Chunks that chunking gives for a text: the grammar chunks of the text
/// ([`spec_grammar_chunks`]) when its extension has a grammar, the text
/// parses and its tree gives chunks; the delimiter chunks otherwise.
pub open spec fn strategy_chunk_bytes(
    content: Seq<char>,
    delimiters: Option<Seq<u8>>,
    target_size: usize,
    ext: Option<Seq<char>>,
) -> Seq<Seq<u8>> {
    let bytes = encode_utf8(content);
    match spec_grammar_chunks(content, bytes, delimiters, target_size, ext) {
        Some(chunks) => chunks,
        None => delimiter_chunks(bytes, memchunk_lengths(bytes, target_size, delimiters)),
    }
}

/// Delimiters `chunk_text` uses: those the configuration selects, none
/// without a configuration.
pub open spec fn chunk_text_delimiters(config: Option<&ChunkingConfig>, ext: Option<Seq<char>>) -> Option<Seq<u8>> {
    match config {
        Some(c) => config_delimiters(*c, ext),
        None => None,
    }
}

/// Target size `chunk_text` uses: the one the configuration selects, the
/// default without a configuration.
pub open spec fn chunk_text_target_size(config: Option<&ChunkingConfig>) -> usize {
    match config {
        Some(c) => config_target_size(*c),
        None => default_target_size_spec(),
    }
}

/// Chunks of a text under the grammar-aware strategy when it applies, else
/// delimiter chunking.
pub fn chunk_with_strategy<'a>(
    content: &'a str,
    delimiters: Option<&[u8]>,
    target_size: usize,
    file_extension: Option<&str>,
) -> (chunks: Vec<&'a str>)
    requires
        target_size > 0,
    ensures
        pieces_bytes(chunks@) == strategy_chunk_bytes(content@, opt_bytes(delimiters), target_size, opt_chars(file_extension)),
        pieces_bytes(chunks@).flatten() == bytes_of(content),
{
    assert(bytes_of(content) == encode_utf8(content@));
    assert(opt_str(file_extension) == opt_chars(file_extension));
    match chunk_content(content, delimiters, target_size, file_extension) {
        Some(chunks) => chunks,
        None => chunk_with_delimiters(content, delimiters, target_size),
    }
}

/// Chunks `chunk_text` gives for a text under an optional configuration and
/// a file extension.
pub open spec fn chunk_text_chunks(
    config: Option<&ChunkingConfig>,
    content: Seq<char>,
    ext: Option<Seq<char>>,
) -> Seq<Seq<u8>> {
    strategy_chunk_bytes(content, chunk_text_delimiters(config, ext), chunk_text_target_size(config), ext)
}

/// Chunks text content using optional chunking configuration.
/// File extension should not include the leading dot; it selects the
/// grammar and is the key under which per-type delimiters are looked up.
///
/// The chunks are the grammar chunks of the content when its extension has a
/// grammar, the content parses and its tree gives chunks, and its delimiter
/// chunks otherwise; concatenated in order, they give back the content.
pub fn chunk_text<'a>(
    config: Option<&ChunkingConfig>,
    content: &'a str,
    file_extension: Option<&str>,
) -> (chunks: Vec<&'a str>)
    ensures
        pieces_bytes(chunks@) == chunk_text_chunks(config, content@, opt_chars(file_extension)),
        pieces_bytes(chunks@).flatten() == bytes_of(content),
{
    let default_config = ChunkingConfig::default();
    let chosen = match config {
        Some(c) => c,
        None => &default_config,
    };
    let delimiters = delimiters_from_config(chosen, file_extension);
    let target_size = target_size_from_config(chosen);
    proof {
        if config is None {
            assert(ft_delimiters_from(default_config.delimiters_by_ft@, file_extension->0@, 0) is None);
        }
    }
    chunk_with_strategy(content, delimiters, target_size, file_extension)
}

/// A target size of zero falls back to the default size just as an unset
/// one does, so the two settings give the same chunks.
pub proof fn lemma_zero_target_size_is_unset(
    zero: ChunkingConfig,
    unset: ChunkingConfig,
    content: Seq<char>,
    ext: Option<Seq<char>>,
)
    requires
        zero.target_size == Some(0usize),
        unset.target_size is None,
        zero.delimiters_by_ft@ == unset.delimiters_by_ft@,
        general_delimiters(zero) == general_delimiters(unset),
    ensures
        chunk_text_chunks(Some(&zero), content, ext) == chunk_text_chunks(Some(&unset), content, ext),
{
}

/// Chunking without a configuration is chunking with the default one.
pub proof fn lemma_no_config_is_default(default: ChunkingConfig, content: Seq<char>, ext: Option<Seq<char>>)
    requires
        default.target_size is None,
        default.delimiters_by_ft@.len() == 0,
        default.delimiters is None,
    ensures
        chunk_text_chunks(None, content, ext) == chunk_text_chunks(Some(&default), content, ext),
{
    if let Some(e) = ext {
        assert(ft_delimiters_from(default.delimiters_by_ft@, e, 0) is None);
    }
}

/// A configuration gives the same chunks as one that holds only the
/// delimiters it selects for the key and the same target size.
pub proof fn lemma_resolved_delimiters(
    config: ChunkingConfig,
    resolved: ChunkingConfig,
    content: Seq<char>,
    ext: Option<Seq<char>>,
)
    requires
        resolved.target_size == config.target_size,
        resolved.delimiters_by_ft@.len() == 0,
        general_delimiters(resolved) == config_delimiters(config, ext),
    ensures
        chunk_text_chunks(Some(&config), content, ext) == chunk_text_chunks(Some(&resolved), content, ext),
{
    if let Some(e) = ext {
        assert(ft_delimiters_from(resolved.delimiters_by_ft@, e, 0) is None);
    }
}

} // verus!
