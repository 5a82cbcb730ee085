//! Text segments of extraction parts, derived by chunking the part text.
use vstd::prelude::*;
use vstd::string::*;

use crate::chunking::{
    chunk_text_target_size, chunk_with_strategy, config_delimiters, delimiters_for_type, delimiters_from_config,
    opt_bytes, opt_chars, strategy_chunk_bytes, target_size_from_config, type_delimiters, ChunkingConfig,
    chunk_text_chunks, ft_delimiters_from, general_delimiters,
};
use crate::extraction::{ExtractionMetadata, ExtractionPart, ExtractionSegment, ExtractionTextRange};
use crate::text::{bytes_of, find_bytes, find_from, pieces_bytes};

verus! {

/// Byte offset of the `i`-th of a sequence of consecutive pieces.
pub open spec fn piece_offset(pieces: Seq<Seq<u8>>, i: int) -> int
    decreases i,
{
    if i <= 0 {
        0
    } else {
        piece_offset(pieces, i - 1) + pieces[i - 1].len()
    }
}

/// Text bytes of each segment; a segment without text counts as empty.
pub open spec fn segment_bytes(segments: Seq<ExtractionSegment>) -> Seq<Seq<u8>> {
    segments.map_values(
        |s: ExtractionSegment|
            match s.text {
                Some(t) => vstd::utf8::encode_utf8(t@),
                None => seq![],
            },
    )
}

/// Whether segments are numbered in order, carry text, and cover their part
/// text with consecutive byte ranges.
pub open spec fn consecutive_segments(segments: Seq<ExtractionSegment>) -> bool {
    let pieces = segment_bytes(segments);
    forall|i: int|
        0 <= i < segments.len() ==> {
            let s = #[trigger] segments[i];
            &&& s.index == i
            &&& s.text is Some
            &&& s.range matches Some(r) && r.start == piece_offset(pieces, i) && r.end
                == piece_offset(pieces, i + 1)
        }
}

/// Extension recorded in optional metadata.
pub open spec fn metadata_ext(metadata: Option<&ExtractionMetadata>) -> Option<Seq<char>> {
    match metadata {
        Some(m) => match m.extension {
            Some(e) => Some(e@),
            None => None,
        },
        None => None,
    }
}

/// Delimiters that part segments use: per-type delimiters keyed by the
/// detected file label, else by the detected MIME type, else the general
/// delimiters; none without a configuration.
pub open spec fn part_delimiters(config: Option<&ChunkingConfig>, metadata: Option<&ExtractionMetadata>) -> Option<
    Seq<u8>,
> {
    match config {
        None => None,
        Some(c) => match metadata {
            Some(m) => type_delimiters(*c, m.label@, m.mime_type@),
            None => config_delimiters(*c, None),
        },
    }
}

/// Chunks of a part text: chunked with the part delimiters and the
/// configured target size, the grammar chosen by the file extension.
pub open spec fn part_chunks(text: Seq<char>, config: Option<&ChunkingConfig>, metadata: Option<&ExtractionMetadata>) -> Seq<
    Seq<u8>,
> {
    strategy_chunk_bytes(text, part_delimiters(config, metadata), chunk_text_target_size(config), metadata_ext(metadata))
}

/// Whether `after` is `before` with segments derived from its text: parts
/// without text, or whose text gives no chunks, are unchanged; the others get
/// one segment per chunk of their text, with consecutive ranges.
pub open spec fn segmented_part(
    before: ExtractionPart,
    after: ExtractionPart,
    config: Option<&ChunkingConfig>,
    metadata: Option<&ExtractionMetadata>,
) -> bool {
    &&& after.index == before.index
    &&& after.kind == before.kind
    &&& after.text == before.text
    &&& after.range == before.range
    &&& after.provenance == before.provenance
    &&& match before.text {
        None => after.segments == before.segments,
        Some(t) => {
            let chunks = part_chunks(t@, config, metadata);
            if chunks.len() == 0 {
                after.segments == before.segments
            } else {
                &&& after.segments matches Some(segs)
                &&& segment_bytes(segs@) == chunks
                &&& consecutive_segments(segs@)
            }
        },
    }
}

/// Offsets of consecutive pieces that concatenate to a text lie within it,
/// and each piece is the text between its offsets.
proof fn lemma_piece_offsets(pieces: Seq<Seq<u8>>, i: int)
    requires
        0 <= i <= pieces.len(),
    ensures
        pieces.subrange(0, i).flatten().len() == piece_offset(pieces, i),
        pieces.flatten().subrange(0, piece_offset(pieces, i)) == pieces.subrange(0, i).flatten(),
        i < pieces.len() ==> pieces.flatten().subrange(
            piece_offset(pieces, i),
            piece_offset(pieces, i + 1),
        ) == pieces[i],
        piece_offset(pieces, i) <= pieces.flatten().len(),
    decreases i,
{
    vstd::seq_lib::lemma_flatten_concat(pieces.subrange(0, i), pieces.subrange(i, pieces.len() as int));
    assert(pieces.subrange(0, i) + pieces.subrange(i, pieces.len() as int) =~= pieces);
    if i > 0 {
        lemma_piece_offsets(pieces, i - 1);
        let head = pieces.subrange(0, i - 1);
        assert(pieces.subrange(0, i) =~= head.push(pieces[i - 1]));
        head.lemma_flatten_push(pieces[i - 1]);
    } else {
        assert(pieces.subrange(0, 0) =~= Seq::<Seq<u8>>::empty());
    }
    if i < pieces.len() {
        let rest = pieces.subrange(i, pieces.len() as int);
        assert(rest =~= seq![pieces[i]] + pieces.subrange(i + 1, pieces.len() as int));
        vstd::seq_lib::lemma_flatten_concat(seq![pieces[i]], pieces.subrange(i + 1, pieces.len() as int));
        seq![pieces[i]].lemma_flatten_one_element();
        assert(pieces.subrange(0, i + 1) =~= pieces.subrange(0, i).push(pieces[i]));
        pieces.subrange(0, i).lemma_flatten_push(pieces[i]);
        assert(pieces.flatten() =~= pieces.subrange(0, i).flatten() + (pieces[i]
            + pieces.subrange(i + 1, pieces.len() as int).flatten()));
    }
}

/// Segments of one part text: one per chunk, with consecutive byte ranges.
fn segments_of_chunks(text: &str, chunks: &Vec<&str>) -> (segments: Vec<ExtractionSegment>)
    requires
        pieces_bytes(chunks@).flatten() == text.spec_bytes(),
    ensures
        segment_bytes(segments@) == pieces_bytes(chunks@),
        consecutive_segments(segments@),
{
    let bytes = text.as_bytes();
    let blen = bytes.len();
    let ghost pieces = pieces_bytes(chunks@);
    let mut segments: Vec<ExtractionSegment> = Vec::new();
    let mut cursor: usize = 0;
    let mut index: usize = 0;
    while index < chunks.len()
        invariant
            bytes@ == text.spec_bytes(),
            blen == bytes@.len(),
            pieces == pieces_bytes(chunks@),
            pieces.flatten() == bytes@,
            index <= chunks@.len(),
            segments@.len() == index,
            cursor == piece_offset(pieces, index as int),
            segment_bytes(segments@) == pieces.subrange(0, index as int),
            forall|i: int|
                0 <= i < index ==> {
                    let s = #[trigger] segments@[i];
                    &&& s.index == i
                    &&& s.text is Some
                    &&& s.range matches Some(r) && r.start == piece_offset(pieces, i) && r.end
                        == piece_offset(pieces, i + 1)
                },
        decreases chunks@.len() - index,
    {
        let chunk = chunks[index];
        proof {
            lemma_piece_offsets(pieces, index as int);
            lemma_piece_offsets(pieces, index as int + 1);
            assert(pieces[index as int] == chunk.spec_bytes());
        }
        let needle = chunk.as_bytes();
        let start = match find_bytes(bytes, needle, cursor) {
            Some(offset) => offset,
            None => cursor,
        };
        proof {
            assert(bytes@.subrange(cursor as int, cursor + needle@.len()) == needle@);
            assert(find_from(bytes@, needle@, cursor as int) == Some(cursor as int));
        }
        let end = start + needle.len();
        let ghost before = segments@;
        segments.push(
            ExtractionSegment {
                index,
                text: Some(chunk.to_owned()),
                range: Some(ExtractionTextRange { start, end }),
            },
        );
        assert(segment_bytes(segments@) =~= pieces.subrange(0, index as int + 1));
        cursor = end;
        index = index + 1;
    }
    assert(pieces.subrange(0, index as int) =~= pieces);
    segments
}

/// Extension recorded in optional metadata, as an optional slice.
fn extension_of(metadata: Option<&ExtractionMetadata>) -> (extension: Option<&str>)
    ensures
        opt_chars(extension) == metadata_ext(metadata),
{
    match metadata {
        Some(m) => match &m.extension {
            Some(e) => Some(e.as_str()),
            None => None,
        },
        None => None,
    }
}

/// Delimiters for part segments, as a slice.
fn part_delimiter_slice<'a>(config: Option<&'a ChunkingConfig>, metadata: Option<&ExtractionMetadata>) -> (delimiters:
    Option<&'a [u8]>)
    ensures
        opt_bytes(delimiters) == part_delimiters(config, metadata),
{
    match config {
        None => None,
        Some(c) => match metadata {
            Some(m) => delimiters_for_type(c, m.label.as_str(), m.mime_type.as_str()),
            None => delimiters_from_config(c, None),
        },
    }
}

/// Target size for part segments.
fn part_target_size(config: Option<&ChunkingConfig>) -> (size: usize)
    ensures
        size == chunk_text_target_size(config),
        size > 0,
{
    match config {
        Some(c) => target_size_from_config(c),
        None => {
            let default_config = ChunkingConfig::default();
            target_size_from_config(&default_config)
        },
    }
}

/// Add chunking-derived segments to text-bearing parts.
pub fn derive_part_chunking(
    parts: Vec<ExtractionPart>,
    config: Option<&ChunkingConfig>,
    metadata: Option<&ExtractionMetadata>,
) -> (segmented: Vec<ExtractionPart>)
    ensures
        segmented@.len() == parts@.len(),
        forall|k: int|
            0 <= k < parts@.len() ==> segmented_part(
                #[trigger] parts@[k],
                segmented@[k],
                config,
                metadata,
            ),
{
    let extension = extension_of(metadata);
    let delimiters = part_delimiter_slice(config, metadata);
    let target_size = part_target_size(config);
    let ghost given = parts@;
    let mut segmented: Vec<ExtractionPart> = Vec::new();
    for part in it: parts
        invariant
            given == it.seq(),
            opt_chars(extension) == metadata_ext(metadata),
            opt_bytes(delimiters) == part_delimiters(config, metadata),
            target_size == chunk_text_target_size(config),
            target_size > 0,
            segmented@.len() == it.index(),
            forall|k: int|
                0 <= k < it.index() ==> segmented_part(
                    #[trigger] given[k],
                    segmented@[k],
                    config,
                    metadata,
                ),
    {
        let ghost before = part;
        let mut part = part;
        let segments = match &part.text {
            None => None,
            Some(text) => {
                let text_str = text.as_str();
                let chunks = chunk_with_strategy(text_str, delimiters, target_size, extension);
                assert(bytes_of(text_str) == vstd::utf8::encode_utf8(text@));
                if chunks.len() == 0 {
                    assert(pieces_bytes(chunks@) =~= seq![]);
                    None
                } else {
                    let segs = segments_of_chunks(text_str, &chunks);
                    assert(segs@.len() > 0);
                    Some(segs)
                }
            },
        };
        if let Some(segments) = segments {
            part.segments = Some(segments);
        }
        proof {
            assert(part.index == before.index);
            assert(part.text == before.text);
            assert(segmented_part(before, part, config, metadata));
        }
        let ghost prev = segmented@;
        segmented.push(part);
        assert(segmented@[it.index() as int] == part);
    }
    segmented
}

/// Part segments use the delimiters keyed by the detected label or MIME type:
/// a part's chunks are the ones `chunk_text` gives, for the file extension,
/// under a configuration holding just those delimiters and the same target
/// size.
pub proof fn lemma_part_chunks_use_type_delimiters(
    text: Seq<char>,
    config: ChunkingConfig,
    metadata: ExtractionMetadata,
    resolved: ChunkingConfig,
)
    requires
        resolved.target_size == config.target_size,
        resolved.delimiters_by_ft@.len() == 0,
        general_delimiters(resolved) == type_delimiters(config, metadata.label@, metadata.mime_type@),
    ensures
        part_chunks(text, Some(&config), Some(&metadata)) == chunk_text_chunks(
            Some(&resolved),
            text,
            metadata_ext(Some(&metadata)),
        ),
{
    if let Some(e) = metadata_ext(Some(&metadata)) {
        assert(ft_delimiters_from(resolved.delimiters_by_ft@, e, 0) is None);
    }
}

} // verus!
