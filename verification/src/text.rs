//! UTF-8 byte-level helpers shared by the chunking and extraction code.
use vstd::prelude::*;
use vstd::string::*;
use vstd::utf8::*;

verus! {

broadcast use vstd::utf8::encode_utf8_valid_utf8;

/// UTF-8 bytes of a string slice.
pub open spec fn bytes_of(s: &str) -> Seq<u8> {
    s.spec_bytes()
}

/// Byte contents of each string slice of a sequence.
pub open spec fn pieces_bytes(pieces: Seq<&str>) -> Seq<Seq<u8>> {
    pieces.map_values(|p: &str| p.spec_bytes())
}

/// A char boundary of the whole sequence that lies at or after `start` is a
/// char boundary of the suffix that begins at `start`.
pub proof fn lemma_boundary_in_suffix(bytes: Seq<u8>, start: int, index: int)
    requires
        valid_utf8(bytes),
        0 <= start <= index <= bytes.len(),
        is_char_boundary(bytes, start),
        is_char_boundary(bytes, index),
    ensures
        valid_utf8(bytes.subrange(start, bytes.len() as int)),
        is_char_boundary(bytes.subrange(start, bytes.len() as int), index - start),
{
    let tail = bytes.subrange(start, bytes.len() as int);
    valid_utf8_split(bytes, start);
    if index == bytes.len() {
        is_char_boundary_start_end_of_seq(tail);
        assert(tail.len() == index - start);
    } else if index == start {
        is_char_boundary_start_end_of_seq(tail);
    } else {
        is_char_boundary_iff_not_is_continuation_byte(bytes, index);
        is_char_boundary_iff_not_is_continuation_byte(tail, index - start);
        assert(tail[index - start] == bytes[index]);
    }
}

/// Start and end of every string are char boundaries.
pub proof fn lemma_str_ends_are_boundaries(s: &str)
    ensures
        valid_utf8(s.spec_bytes()),
        is_char_boundary(s.spec_bytes(), 0),
        is_char_boundary(s.spec_bytes(), s.spec_bytes().len() as int),
{
    is_char_boundary_start_end_of_seq(s.spec_bytes());
}

/// Returns the sub-slice of `s` between two byte offsets on char boundaries.
pub fn byte_slice<'a>(s: &'a str, start: usize, end: usize) -> (piece: &'a str)
    requires
        start <= end <= s.spec_bytes().len(),
        is_char_boundary(s.spec_bytes(), start as int),
        is_char_boundary(s.spec_bytes(), end as int),
    ensures
        piece.spec_bytes() == s.spec_bytes().subrange(start as int, end as int),
{
    let ghost bytes = s.spec_bytes();
    proof {
        lemma_boundary_in_suffix(bytes, start as int, end as int);
    }
    let (_, tail) = s.split_at(start);
    let (piece, _) = tail.split_at(end - start);
    assert(piece.spec_bytes() =~= bytes.subrange(start as int, end as int));
    piece
}

/// Two strings with the same UTF-8 bytes hold the same characters.
pub proof fn lemma_bytes_determine_chars(a: &str, b: &str)
    requires
        a.spec_bytes() == b.spec_bytes(),
    ensures
        a@ == b@,
{
    encode_utf8_decode_utf8(a@);
    encode_utf8_decode_utf8(b@);
}

/// Compares two string slices for equality of their characters.
pub fn str_eq(a: &str, b: &str) -> (equal: bool)
    ensures
        equal == (a@ == b@),
{
    let x = a.as_bytes();
    let y = b.as_bytes();
    if x.len() != y.len() {
        return false;
    }
    let mut i: usize = 0;
    while i < x.len()
        invariant
            x@ == a.spec_bytes(),
            y@ == b.spec_bytes(),
            x@.len() == y@.len(),
            i <= x@.len(),
            forall|j: int| 0 <= j < i ==> x@[j] == y@[j],
        decreases x@.len() - i,
    {
        if x[i] != y[i] {
            return false;
        }
        i = i + 1;
    }
    assert(x@ =~= y@);
    proof {
        lemma_bytes_determine_chars(a, b);
    }
    true
}


/// Characters with the Unicode `White_Space` property, which `char::is_whitespace`
/// tests for.
pub open spec fn is_ws(c: char) -> bool {
    ||| ('\u{9}' <= c && c <= '\u{d}')
    ||| c == ' '
    ||| c == '\u{85}'
    ||| c == '\u{a0}'
    ||| c == '\u{1680}'
    ||| ('\u{2000}' <= c && c <= '\u{200a}')
    ||| c == '\u{2028}'
    ||| c == '\u{2029}'
    ||| c == '\u{202f}'
    ||| c == '\u{205f}'
    ||| c == '\u{3000}'
}

/// Whether a character is Unicode white space.
pub fn is_whitespace(c: char) -> (ws: bool)
    ensures
        ws == is_ws(c),
{
    ('\u{9}' <= c && c <= '\u{d}') || c == ' ' || c == '\u{85}' || c == '\u{a0}' || c == '\u{1680}'
        || ('\u{2000}' <= c && c <= '\u{200a}') || c == '\u{2028}' || c == '\u{2029}' || c
        == '\u{202f}' || c == '\u{205f}' || c == '\u{3000}'
}

/// Index of the first non-white-space character at or after `i`.
pub open spec fn skip_ws_from(s: Seq<char>, i: int) -> int
    decreases s.len() - i,
{
    if 0 <= i < s.len() && is_ws(s[i]) {
        skip_ws_from(s, i + 1)
    } else {
        i
    }
}

/// End of `s[lo..j]` once trailing white space is dropped.
pub open spec fn trim_end_from(s: Seq<char>, lo: int, j: int) -> int
    decreases j - lo,
{
    if lo < j && is_ws(s[j - 1]) {
        trim_end_from(s, lo, j - 1)
    } else {
        j
    }
}

/// Characters of `s` without leading and trailing white space.
pub open spec fn trimmed(s: Seq<char>) -> Seq<char> {
    let lo = skip_ws_from(s, 0);
    s.subrange(lo, trim_end_from(s, lo, s.len() as int))
}

proof fn lemma_skip_ws_from(s: Seq<char>, i: int)
    requires
        0 <= i <= s.len(),
    ensures
        i <= skip_ws_from(s, i) <= s.len(),
    decreases s.len() - i,
{
    if i < s.len() && is_ws(s[i]) {
        lemma_skip_ws_from(s, i + 1);
    }
}

proof fn lemma_trim_end_from(s: Seq<char>, lo: int, j: int)
    requires
        0 <= lo <= j <= s.len(),
    ensures
        lo <= trim_end_from(s, lo, j) <= j,
    decreases j - lo,
{
    if lo < j && is_ws(s[j - 1]) {
        lemma_trim_end_from(s, lo, j - 1);
    }
}

/// Returns the string without leading and trailing white space.
pub fn trim(s: &str) -> (t: &str)
    ensures
        t@ == trimmed(s@),
{
    let len = s.unicode_len();
    let mut lo: usize = 0;
    while lo < len && is_whitespace(s.get_char(lo))
        invariant
            len == s@.len(),
            lo <= len,
            skip_ws_from(s@, lo as int) == skip_ws_from(s@, 0),
        decreases len - lo,
    {
        lo = lo + 1;
    }
    let mut hi: usize = len;
    while hi > lo && is_whitespace(s.get_char(hi - 1))
        invariant
            len == s@.len(),
            lo <= hi <= len,
            lo == skip_ws_from(s@, 0),
            trim_end_from(s@, lo as int, hi as int) == trim_end_from(s@, lo as int, len as int),
        decreases hi,
    {
        hi = hi - 1;
    }
    s.substring_char(lo, hi)
}

/// Whether `s` begins with `prefix`.
pub fn starts_with(s: &str, prefix: &str) -> (b: bool)
    ensures
        b == prefix@.is_prefix_of(s@),
{
    let n = prefix.unicode_len();
    let m = s.unicode_len();
    if n > m {
        return false;
    }
    let mut i: usize = 0;
    while i < n
        invariant
            n == prefix@.len(),
            m == s@.len(),
            n <= m,
            i <= n,
            forall|j: int| 0 <= j < i ==> prefix@[j] == s@[j],
        decreases n - i,
    {
        if prefix.get_char(i) != s.get_char(i) {
            assert(s@.subrange(0, n as int)[i as int] == s@[i as int]);
            return false;
        }
        i = i + 1;
    }
    assert(prefix@ =~= s@.subrange(0, n as int));
    true
}

/// Whether `s` ends with `suffix`.
pub fn ends_with(s: &str, suffix: &str) -> (b: bool)
    ensures
        b == suffix@.is_suffix_of(s@),
{
    let n = suffix.unicode_len();
    let m = s.unicode_len();
    if n > m {
        return false;
    }
    let mut i: usize = 0;
    while i < n
        invariant
            n == suffix@.len(),
            m == s@.len(),
            n <= m,
            i <= n,
            forall|j: int| 0 <= j < i ==> suffix@[j] == s@[m - n + j],
        decreases n - i,
    {
        if suffix.get_char(i) != s.get_char(m - n + i) {
            assert(s@.subrange(m - n, m as int)[i as int] == s@[m - n + i]);
            return false;
        }
        i = i + 1;
    }
    assert(suffix@ =~= s@.subrange(m - n, m as int));
    true
}

/// Whether `needle` occurs in `s` starting at character `at`.
pub open spec fn occurs_at(s: Seq<char>, needle: Seq<char>, at: int) -> bool {
    0 <= at && at + needle.len() <= s.len() && s.subrange(at, at + needle.len()) == needle
}

/// Whether `needle` occurs somewhere in `s`.
pub open spec fn contains_seq(s: Seq<char>, needle: Seq<char>) -> bool {
    exists|at: int| #[trigger] occurs_at(s, needle, at)
}

/// Whether `needle` occurs in `s`.
pub fn contains(s: &str, needle: &str) -> (b: bool)
    ensures
        b == contains_seq(s@, needle@),
{
    let n = needle.unicode_len();
    let m = s.unicode_len();
    if n > m {
        assert forall|at: int| !#[trigger] occurs_at(s@, needle@, at) by {}
        return false;
    }
    let mut at: usize = 0;
    while at <= m - n
        invariant
            n == needle@.len(),
            m == s@.len(),
            n <= m,
            at <= m - n + 1,
            forall|k: int| 0 <= k < at ==> !#[trigger] occurs_at(s@, needle@, k),
        decreases m - n + 1 - at,
    {
        let mut i: usize = 0;
        let mut same = true;
        while i < n
            invariant
                n == needle@.len(),
                m == s@.len(),
                at + n <= m,
                i <= n,
                same == forall|j: int| 0 <= j < i ==> needle@[j] == s@[at + j],
            decreases n - i,
        {
            if needle.get_char(i) != s.get_char(at + i) {
                same = false;
            }
            i = i + 1;
        }
        if same {
            assert(s@.subrange(at as int, at + n) =~= needle@);
            assert(occurs_at(s@, needle@, at as int));
            return true;
        }
        assert(!occurs_at(s@, needle@, at as int)) by {
            if s@.subrange(at as int, at + n) == needle@ {
                assert forall|j: int| 0 <= j < n implies needle@[j] == s@[at + j] by {
                    assert(s@.subrange(at as int, at + n)[j] == s@[at + j]);
                }
            }
        }
        at = at + 1;
    }
    assert forall|k: int| !#[trigger] occurs_at(s@, needle@, k) by {
        if 0 <= k && k + n <= m {
            assert(k < at);
        }
    }
    false
}


/// Parts joined with a separator between each two neighbours.
pub open spec fn join_seq(parts: Seq<Seq<char>>, sep: Seq<char>) -> Seq<char>
    decreases parts.len(),
{
    if parts.len() == 0 {
        Seq::empty()
    } else if parts.len() == 1 {
        parts[0]
    } else {
        join_seq(parts.drop_last(), sep) + sep + parts.last()
    }
}

/// Characters of each string of a sequence.
pub open spec fn strings_view(parts: Seq<String>) -> Seq<Seq<char>> {
    parts.map_values(|p: String| p@)
}

/// Joins strings with a separator between each two neighbours.
pub fn join_strings(parts: &Vec<String>, sep: &str) -> (joined: String)
    ensures
        joined@ == join_seq(strings_view(parts@), sep@),
{
    let mut joined = String::new();
    let mut i: usize = 0;
    while i < parts.len()
        invariant
            i <= parts@.len(),
            joined@ == join_seq(strings_view(parts@.subrange(0, i as int)), sep@),
        decreases parts@.len() - i,
    {
        if i > 0 {
            joined.append(sep);
        }
        joined.append(parts[i].as_str());
        proof {
            let prev = strings_view(parts@.subrange(0, i as int));
            let next = strings_view(parts@.subrange(0, i as int + 1));
            assert(next.drop_last() =~= prev);
            assert(next.last() == parts@[i as int]@);
            if i == 0 {
                assert(prev.len() == 0);
            }
        }
        i = i + 1;
    }
    assert(parts@.subrange(0, i as int) =~= parts@);
    joined
}


/// An ASCII byte in valid UTF-8 has char boundaries on both sides.
pub proof fn lemma_ascii_boundaries(bytes: Seq<u8>, i: int)
    requires
        valid_utf8(bytes),
        0 <= i < bytes.len(),
        bytes[i] < 0x80,
    ensures
        is_char_boundary(bytes, i),
        is_char_boundary(bytes, i + 1),
{
    let b = bytes[i];
    assert(!is_continuation_byte(b)) by {
        assert(b < 0x80 ==> (b & 0xc0) != 0x80) by (bit_vector);
    }
    is_char_boundary_iff_not_is_continuation_byte(bytes, i);
    if i + 1 < bytes.len() {
        let tail = bytes.subrange(i, bytes.len() as int);
        valid_utf8_split(bytes, i);
        assert(tail[0] == b);
        assert(is_leading_byte_width_1(b)) by {
            assert(b < 0x80 ==> (b & 0x80) == 0) by (bit_vector);
        }
        assert(length_of_first_scalar(tail) == 1);
        assert(is_char_boundary(tail, 1)) by {
            reveal_with_fuel(is_char_boundary, 2);
            is_char_boundary_start_end_of_seq(pop_first_scalar(tail));
        }
        is_char_boundary_iff_not_is_continuation_byte(tail, 1);
        assert(tail[1] == bytes[i + 1]);
        is_char_boundary_iff_not_is_continuation_byte(bytes, i + 1);
    } else {
        is_char_boundary_start_end_of_seq(bytes);
    }
}

/// Pieces of `bytes` between the separator bytes, in order; a text with `n`
/// separators has `n + 1` pieces.
pub open spec fn split_bytes(bytes: Seq<u8>, sep: u8) -> Seq<Seq<u8>>
    decreases bytes.len(),
{
    if bytes.len() == 0 {
        seq![seq![]]
    } else {
        let before = split_bytes(bytes.drop_last(), sep);
        if bytes.last() == sep {
            before.push(seq![])
        } else {
            before.update(before.len() - 1, before.last().push(bytes.last()))
        }
    }
}

proof fn lemma_split_bytes_nonempty(bytes: Seq<u8>, sep: u8)
    ensures
        split_bytes(bytes, sep).len() > 0,
    decreases bytes.len(),
{
    if bytes.len() > 0 {
        lemma_split_bytes_nonempty(bytes.drop_last(), sep);
    }
}

/// Splits a string at its `'\n'` characters, keeping empty pieces.
pub fn split_newlines<'a>(s: &'a str) -> (pieces: Vec<&'a str>)
    ensures
        pieces_bytes(pieces@) == split_bytes(s.spec_bytes(), 10u8),
{
    split_ascii(s, 10u8)
}

/// Splits a string at each occurrence of an ASCII character, keeping empty
/// pieces.
pub fn split_ascii<'a>(s: &'a str, sep: u8) -> (pieces: Vec<&'a str>)
    requires
        sep < 0x80,
    ensures
        pieces_bytes(pieces@) == split_bytes(s.spec_bytes(), sep),
{
    let bytes = s.as_bytes();
    let ghost b = s.spec_bytes();
    let len = bytes.len();
    let mut pieces: Vec<&'a str> = Vec::new();
    let mut start: usize = 0;
    let mut i: usize = 0;
    proof {
        is_char_boundary_start_end_of_seq(b);
        assert(b.subrange(0, 0) =~= Seq::<u8>::empty());
        assert(pieces_bytes(pieces@).push(b.subrange(0, 0)) =~= seq![Seq::<u8>::empty()]);
    }
    while i < len
        invariant
            bytes@ == b,
            b == s.spec_bytes(),
            len == b.len(),
            valid_utf8(b),
            start <= i <= len,
            is_char_boundary(b, start as int),
            sep < 0x80,
            ({
                let done = pieces_bytes(pieces@).push(b.subrange(start as int, i as int));
                done == split_bytes(b.subrange(0, i as int), sep)
            }),
        decreases len - i,
    {
        proof {
            lemma_split_bytes_nonempty(b.subrange(0, i as int), sep);
            assert(b.subrange(0, i as int + 1).drop_last() =~= b.subrange(0, i as int));
            assert(b.subrange(0, i as int + 1).last() == b[i as int]);
        }
        if bytes[i] == sep {
            proof {
                lemma_ascii_boundaries(b, i as int);
            }
            let piece = byte_slice(s, start, i);
            let ghost before = pieces@;
            pieces.push(piece);
            assert(pieces_bytes(pieces@) =~= pieces_bytes(before).push(b.subrange(start as int, i as int)));
            assert(b.subrange(i as int + 1, i as int + 1) =~= Seq::<u8>::empty());
            start = i + 1;
        } else {
            assert(b.subrange(start as int, i as int).push(b[i as int]) =~= b.subrange(start as int, i as int + 1));
        }
        i = i + 1;
    }
    proof {
        is_char_boundary_start_end_of_seq(b);
    }
    let last = byte_slice(s, start, len);
    let ghost before = pieces@;
    pieces.push(last);
    assert(pieces_bytes(pieces@) =~= pieces_bytes(before).push(b.subrange(start as int, len as int)));
    assert(b.subrange(0, len as int) =~= b);
    pieces
}

/// First index at or after `from` where `needle` occurs in `hay`.
pub open spec fn find_from(hay: Seq<u8>, needle: Seq<u8>, from: int) -> Option<int>
    decreases hay.len() + 1 - from,
{
    if from < 0 || from + needle.len() > hay.len() {
        None
    } else if hay.subrange(from, from + needle.len()) == needle {
        Some(from)
    } else {
        find_from(hay, needle, from + 1)
    }
}

/// Finds the first occurrence of `needle` in `hay` at or after `from`.
pub fn find_bytes(hay: &[u8], needle: &[u8], from: usize) -> (found: Option<usize>)
    ensures
        found matches Some(k) ==> find_from(hay@, needle@, from as int) == Some(k as int) && k
            + needle@.len() <= hay@.len(),
        found is None ==> find_from(hay@, needle@, from as int) is None,
{
    let n = needle.len();
    let m = hay.len();
    if n > m {
        return None;
    }
    let mut at: usize = from;
    while at <= m - n
        invariant
            n == needle@.len(),
            m == hay@.len(),
            n <= m,
            from <= at,
            find_from(hay@, needle@, from as int) == find_from(hay@, needle@, at as int),
        decreases m - at,
    {
        let mut i: usize = 0;
        let mut same = true;
        while i < n
            invariant
                n == needle@.len(),
                m == hay@.len(),
                at + n <= m,
                i <= n,
                same == forall|j: int| 0 <= j < i ==> needle@[j] == hay@[at + j],
            decreases n - i,
        {
            if needle[i] != hay[at + i] {
                same = false;
            }
            i = i + 1;
        }
        if same {
            assert(hay@.subrange(at as int, at + n) =~= needle@);
            return Some(at);
        }
        assert(hay@.subrange(at as int, at + n) != needle@) by {
            if hay@.subrange(at as int, at + n) == needle@ {
                assert forall|j: int| 0 <= j < n implies needle@[j] == hay@[at + j] by {
                    assert(hay@.subrange(at as int, at + n)[j] == hay@[at + j]);
                }
            }
        }
        at = at + 1;
    }
    None
}


/// Characters of each string slice of a sequence.
pub open spec fn strs_view(parts: Seq<&str>) -> Seq<Seq<char>> {
    parts.map_values(|p: &str| p@)
}

/// Joins string slices with a separator between each two neighbours.
pub fn join_strs(parts: &[&str], sep: &str) -> (joined: String)
    ensures
        joined@ == join_seq(strs_view(parts@), sep@),
{
    let mut joined = String::new();
    let mut i: usize = 0;
    while i < parts.len()
        invariant
            i <= parts@.len(),
            joined@ == join_seq(strs_view(parts@.subrange(0, i as int)), sep@),
        decreases parts@.len() - i,
    {
        if i > 0 {
            joined.append(sep);
        }
        joined.append(parts[i]);
        proof {
            let prev = strs_view(parts@.subrange(0, i as int));
            let next = strs_view(parts@.subrange(0, i as int + 1));
            assert(next.drop_last() =~= prev);
            assert(next.last() == parts@[i as int]@);
        }
        i = i + 1;
    }
    assert(parts@.subrange(0, i as int) =~= parts@);
    joined
}


/// Characters of `s` without leading white space.
pub open spec fn trimmed_start(s: Seq<char>) -> Seq<char> {
    s.subrange(skip_ws_from(s, 0), s.len() as int)
}

/// Returns the string without leading white space.
pub fn trim_start(s: &str) -> (t: &str)
    ensures
        t@ == trimmed_start(s@),
        t.spec_bytes().len() <= s.spec_bytes().len(),
{
    let len = s.unicode_len();
    let mut lo: usize = 0;
    while lo < len && is_whitespace(s.get_char(lo))
        invariant
            len == s@.len(),
            lo <= len,
            skip_ws_from(s@, lo as int) == skip_ws_from(s@, 0),
        decreases len - lo,
    {
        lo = lo + 1;
    }
    proof {
        lemma_skip_ws_from(s@, 0);
        lemma_encode_suffix_len(s@, lo as int);
    }
    s.substring_char(lo, len)
}

/// A suffix of characters encodes to no more bytes than the whole.
pub proof fn lemma_encode_suffix_len(s: Seq<char>, a: int)
    requires
        0 <= a <= s.len(),
    ensures
        encode_utf8(s.subrange(a, s.len() as int)).len() <= encode_utf8(s).len(),
    decreases a,
{
    if a > 0 {
        let rest = s.drop_first();
        lemma_encode_suffix_len(rest, a - 1);
        assert(rest.subrange(a - 1, rest.len() as int) =~= s.subrange(a, s.len() as int));
        assert(encode_utf8(s) == encode_scalar(s[0] as u32) + encode_utf8(rest));
    } else {
        assert(s.subrange(0, s.len() as int) =~= s);
    }
}

/// `s` without the prefix, when it starts with it.
pub open spec fn stripped_prefix(s: Seq<char>, prefix: Seq<char>) -> Option<Seq<char>> {
    if prefix.is_prefix_of(s) {
        Some(s.subrange(prefix.len() as int, s.len() as int))
    } else {
        None
    }
}

/// `s` without the suffix, when it ends with it.
pub open spec fn stripped_suffix(s: Seq<char>, suffix: Seq<char>) -> Option<Seq<char>> {
    if suffix.is_suffix_of(s) {
        Some(s.subrange(0, s.len() - suffix.len()))
    } else {
        None
    }
}

/// Returns `s` without the prefix, when it starts with it.
pub fn strip_prefix<'a>(s: &'a str, prefix: &str) -> (rest: Option<&'a str>)
    ensures
        match rest {
            Some(r) => stripped_prefix(s@, prefix@) == Some(r@),
            None => stripped_prefix(s@, prefix@) is None,
        },
{
    if starts_with(s, prefix) {
        let n = prefix.unicode_len();
        let m = s.unicode_len();
        Some(s.substring_char(n, m))
    } else {
        None
    }
}

/// Returns `s` without the suffix, when it ends with it.
pub fn strip_suffix<'a>(s: &'a str, suffix: &str) -> (rest: Option<&'a str>)
    ensures
        match rest {
            Some(r) => stripped_suffix(s@, suffix@) == Some(r@),
            None => stripped_suffix(s@, suffix@) is None,
        },
{
    if ends_with(s, suffix) {
        let n = suffix.unicode_len();
        let m = s.unicode_len();
        Some(s.substring_char(0, m - n))
    } else {
        None
    }
}

/// `s` with each occurrence of a non-empty pattern, found left to right
/// without overlap, replaced.
pub open spec fn replaced(s: Seq<char>, pattern: Seq<char>, replacement: Seq<char>) -> Seq<char>
    decreases s.len(),
{
    if pattern.len() == 0 || s.len() == 0 {
        s
    } else if pattern.is_prefix_of(s) {
        replacement + replaced(s.subrange(pattern.len() as int, s.len() as int), pattern, replacement)
    } else {
        seq![s[0]] + replaced(s.drop_first(), pattern, replacement)
    }
}

/// Whether `pattern` occurs in `s` at character `at`.
fn occurs_at_index(s: &str, len: usize, pattern: &str, n: usize, at: usize) -> (found: bool)
    requires
        len == s@.len(),
        n == pattern@.len(),
        at <= len,
    ensures
        found == pattern@.is_prefix_of(s@.subrange(at as int, len as int)),
{
    if n > len - at {
        return false;
    }
    let mut i: usize = 0;
    while i < n
        invariant
            len == s@.len(),
            n == pattern@.len(),
            at + n <= len,
            i <= n,
            forall|j: int| 0 <= j < i ==> pattern@[j] == s@[at + j],
        decreases n - i,
    {
        if pattern.get_char(i) != s.get_char(at + i) {
            assert(s@.subrange(at as int, len as int).subrange(0, n as int)[i as int] == s@[at + i]);
            return false;
        }
        i = i + 1;
    }
    assert(pattern@ =~= s@.subrange(at as int, len as int).subrange(0, n as int));
    true
}

/// Replaces each occurrence of a non-empty pattern, left to right without
/// overlap.
pub fn replace_all(s: &str, pattern: &str, replacement: &str) -> (r: String)
    requires
        pattern@.len() > 0,
    ensures
        r@ == replaced(s@, pattern@, replacement@),
{
    let len = s.unicode_len();
    let n = pattern.unicode_len();
    let mut r = String::new();
    let mut at: usize = 0;
    assert(s@.subrange(0, len as int) =~= s@);
    assert(r@ + replaced(s@, pattern@, replacement@) =~= replaced(s@, pattern@, replacement@));
    while at < len
        invariant
            len == s@.len(),
            n == pattern@.len(),
            n > 0,
            at <= len,
            r@ + replaced(s@.subrange(at as int, len as int), pattern@, replacement@) == replaced(
                s@,
                pattern@,
                replacement@,
            ),
        decreases len - at,
    {
        let ghost rest = s@.subrange(at as int, len as int);
        if occurs_at_index(s, len, pattern, n, at) {
            r.append(replacement);
            assert(rest.subrange(n as int, rest.len() as int) =~= s@.subrange(at + n, len as int));
            at = at + n;
        } else {
            let piece = s.substring_char(at, at + 1);
            r.append(piece);
            assert(piece@ =~= seq![rest[0]]);
            assert(rest.drop_first() =~= s@.subrange(at + 1, len as int));
            at = at + 1;
        }
    }
    proof {
        assert(s@.subrange(len as int, len as int) =~= Seq::<char>::empty());
        assert(s@.subrange(0, len as int) =~= s@);
    }
    r
}

/// Index of the first occurrence of a pattern in `s`, if any.
pub open spec fn first_occurrence(s: Seq<char>, pattern: Seq<char>, from: int) -> Option<int>
    decreases s.len() + 1 - from,
{
    if from < 0 || from + pattern.len() > s.len() {
        None
    } else if s.subrange(from, from + pattern.len()) == pattern {
        Some(from)
    } else {
        first_occurrence(s, pattern, from + 1)
    }
}

/// `s` up to the first occurrence of the pattern, when there is one, as the
/// first part of `split_once` gives it.
pub open spec fn before_first(s: Seq<char>, pattern: Seq<char>) -> Option<Seq<char>> {
    match first_occurrence(s, pattern, 0) {
        Some(i) => Some(s.subrange(0, i)),
        None => None,
    }
}

/// Returns the part of `s` before the first occurrence of the pattern.
pub fn split_once_before<'a>(s: &'a str, pattern: &str) -> (before: Option<&'a str>)
    ensures
        match before {
            Some(b) => before_first(s@, pattern@) == Some(b@),
            None => before_first(s@, pattern@) is None,
        },
{
    let len = s.unicode_len();
    let n = pattern.unicode_len();
    let mut at: usize = 0;
    while n <= len && at <= len - n
        invariant
            len == s@.len(),
            n == pattern@.len(),
            first_occurrence(s@, pattern@, at as int) == first_occurrence(s@, pattern@, 0),
        decreases len - at,
    {
        if occurs_at_index(s, len, pattern, n, at) {
            assert(s@.subrange(at as int, at + n) =~= s@.subrange(at as int, len as int).subrange(
                0,
                n as int,
            ));
            return Some(s.substring_char(0, at));
        }
        assert(s@.subrange(at as int, at + n) =~= s@.subrange(at as int, len as int).subrange(
            0,
            n as int,
        ));
        at = at + 1;
    }
    None
}


/// A piece without one trailing carriage return, if it has one.
pub open spec fn without_cr(piece: Seq<u8>) -> Seq<u8> {
    if piece.len() > 0 && piece.last() == 13u8 {
        piece.drop_last()
    } else {
        piece
    }
}

/// Lines of a text as `str::lines` gives them: split at `\n`, a `\r` before
/// the `\n` dropped, and no empty line after a final line ending.
pub open spec fn std_lines(bytes: Seq<u8>) -> Seq<Seq<u8>> {
    let pieces = split_bytes(bytes, 10u8);
    let ended = pieces.drop_last().map_values(|p: Seq<u8>| without_cr(p));
    if pieces.last().len() == 0 {
        ended
    } else {
        ended.push(pieces.last())
    }
}

/// Lines of a string, as `str::lines` gives them.
pub fn lines<'a>(s: &'a str) -> (result: Vec<&'a str>)
    ensures
        pieces_bytes(result@) == std_lines(s.spec_bytes()),
{
    let pieces = split_newlines(s);
    proof {
        lemma_split_bytes_nonempty(s.spec_bytes(), 10u8);
    }
    let count = pieces.len();
    let ghost all = pieces_bytes(pieces@);
    let mut result: Vec<&'a str> = Vec::new();
    let mut i: usize = 0;
    while i + 1 < count
        invariant
            count == pieces@.len(),
            count > 0,
            all == pieces_bytes(pieces@),
            i < count,
            pieces_bytes(result@) == all.subrange(0, i as int).map_values(|p: Seq<u8>| without_cr(p)),
        decreases count - i,
    {
        let piece = pieces[i];
        let bytes = piece.as_bytes();
        let n = bytes.len();
        let ghost before = result@;
        assert(all[i as int] == piece.spec_bytes());
        if n > 0 && bytes[n - 1] == 13 {
            proof {
                vstd::utf8::encode_utf8_valid_utf8(piece@);
                lemma_ascii_boundaries(piece.spec_bytes(), n - 1);
                lemma_str_ends_are_boundaries(piece);
            }
            let cut = byte_slice(piece, 0, n - 1);
            result.push(cut);
            assert(cut.spec_bytes() =~= without_cr(all[i as int]));
            assert(pieces_bytes(result@) =~= pieces_bytes(before).push(without_cr(all[i as int])));
        } else {
            result.push(piece);
            assert(without_cr(all[i as int]) == piece.spec_bytes());
            assert(pieces_bytes(result@) =~= pieces_bytes(before).push(without_cr(all[i as int])));
        }
        assert(pieces_bytes(result@) =~= all.subrange(0, i as int + 1).map_values(
            |p: Seq<u8>| without_cr(p),
        ));
        i = i + 1;
    }
    let last = pieces[count - 1];
    assert(all.subrange(0, (count - 1) as int) =~= all.drop_last());
    assert(all.last() == last.spec_bytes());
    if last.as_bytes().len() > 0 {
        let ghost before = result@;
        result.push(last);
        assert(pieces_bytes(result@) =~= pieces_bytes(before).push(last.spec_bytes()));
    }
    result
}

} // verus!
