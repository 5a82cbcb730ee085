//! PaddleOCR PP-OCRv6 models: tiers and their checkpoints, CTC decoding of
//! recognizer output, the recognizer dictionary, and pixel neighbourhoods.
use vstd::prelude::*;
use vstd::string::*;

use vstd::utf8::*;

use crate::text::{
    before_first, pieces_bytes, replace_all, replaced, split_ascii, split_bytes, split_newlines,
    split_once_before, starts_with, str_eq, strings_view, strip_prefix, strip_suffix,
    stripped_prefix, stripped_suffix, trim, trim_start, trimmed, trimmed_start,
};

verus! {

/// PP-OCRv6 model tier.
#[derive(Clone, Copy, PartialEq, Eq, Debug)]
pub enum PpOcrV6Tier {
    Tiny,
    Small,
    Medium,
}

/// Checkpoint of a PP-OCRv6 model and its static input shape.
#[derive(Clone, Copy)]
pub struct PpOcrModelSpec {
    pub repo_id: &'static str,
    pub revision: &'static str,
    pub static_shape: [usize; 4],
}

/// Detector configuration. Its normalization and thresholds, which are
/// floating-point values, are held by the application.
#[derive(Clone, Copy)]
pub struct PpOcrDetectorConfig {
    pub spec: PpOcrModelSpec,
    pub limit_side_len: u32,
    pub max_candidates: usize,
}

/// Recognizer configuration. Its normalization, which is floating-point, is
/// held by the application.
#[derive(Clone, Copy)]
pub struct PpOcrRecognizerConfig {
    pub spec: PpOcrModelSpec,
    pub num_classes: usize,
}

/// Detector checkpoint repository of a tier.
pub open spec fn detector_repo(tier: PpOcrV6Tier) -> Seq<char> {
    match tier {
        PpOcrV6Tier::Tiny => "PaddlePaddle/PP-OCRv6_tiny_det_onnx"@,
        PpOcrV6Tier::Small => "PaddlePaddle/PP-OCRv6_small_det_onnx"@,
        PpOcrV6Tier::Medium => "PaddlePaddle/PP-OCRv6_medium_det_onnx"@,
    }
}

/// Detector checkpoint revision of a tier.
pub open spec fn detector_revision(tier: PpOcrV6Tier) -> Seq<char> {
    match tier {
        PpOcrV6Tier::Tiny => "2ba1506c0380b8f0b03dd142459aac66d4421f6c"@,
        PpOcrV6Tier::Small => "28fe5895c24fd108c19eb3e8479f4ab385fbfc62"@,
        PpOcrV6Tier::Medium => "61323801669c338b7891481ec7bac61ce31b576a"@,
    }
}

/// Recognizer checkpoint repository of a tier.
pub open spec fn recognizer_repo(tier: PpOcrV6Tier) -> Seq<char> {
    match tier {
        PpOcrV6Tier::Tiny => "PaddlePaddle/PP-OCRv6_tiny_rec_onnx"@,
        PpOcrV6Tier::Small => "PaddlePaddle/PP-OCRv6_small_rec_onnx"@,
        PpOcrV6Tier::Medium => "PaddlePaddle/PP-OCRv6_medium_rec_onnx"@,
    }
}

/// Recognizer checkpoint revision of a tier.
pub open spec fn recognizer_revision(tier: PpOcrV6Tier) -> Seq<char> {
    match tier {
        PpOcrV6Tier::Tiny => "2612ab37152ae0a677521bae4e1e3d4fb4cf7c30"@,
        PpOcrV6Tier::Small => "b8f84f0b80c529de40b4fbb3544b84fa7233a513"@,
        PpOcrV6Tier::Medium => "50c7eacafc52fa7bcf4194e8cd08e46f8558504b"@,
    }
}

/// Recognizer output classes of a tier.
pub open spec fn recognizer_classes(tier: PpOcrV6Tier) -> usize {
    match tier {
        PpOcrV6Tier::Tiny => 6906,
        _ => 18710,
    }
}

/// Detector configuration of a tier.
pub fn detector_config(tier: PpOcrV6Tier) -> (config: PpOcrDetectorConfig)
    ensures
        config.spec.repo_id@ == detector_repo(tier),
        config.spec.revision@ == detector_revision(tier),
        config.spec.static_shape@ == seq![1usize, 3, 960, 960],
        config.limit_side_len == 960,
        config.max_candidates == 3000,
{
    let (repo_id, revision) = match tier {
        PpOcrV6Tier::Tiny => (
            "PaddlePaddle/PP-OCRv6_tiny_det_onnx",
            "2ba1506c0380b8f0b03dd142459aac66d4421f6c",
        ),
        PpOcrV6Tier::Small => (
            "PaddlePaddle/PP-OCRv6_small_det_onnx",
            "28fe5895c24fd108c19eb3e8479f4ab385fbfc62",
        ),
        PpOcrV6Tier::Medium => (
            "PaddlePaddle/PP-OCRv6_medium_det_onnx",
            "61323801669c338b7891481ec7bac61ce31b576a",
        ),
    };
    let static_shape: [usize; 4] = [1, 3, 960, 960];
    assert(static_shape@ =~= seq![1usize, 3, 960, 960]);
    PpOcrDetectorConfig {
        spec: PpOcrModelSpec { repo_id, revision, static_shape },
        limit_side_len: 960,
        max_candidates: 3000,
    }
}

/// Recognizer configuration of a tier.
pub fn recognizer_config(tier: PpOcrV6Tier) -> (config: PpOcrRecognizerConfig)
    ensures
        config.spec.repo_id@ == recognizer_repo(tier),
        config.spec.revision@ == recognizer_revision(tier),
        config.spec.static_shape@ == seq![1usize, 3, 48, 320],
        config.num_classes == recognizer_classes(tier),
{
    let (repo_id, revision, num_classes) = match tier {
        PpOcrV6Tier::Tiny => (
            "PaddlePaddle/PP-OCRv6_tiny_rec_onnx",
            "2612ab37152ae0a677521bae4e1e3d4fb4cf7c30",
            6906,
        ),
        PpOcrV6Tier::Small => (
            "PaddlePaddle/PP-OCRv6_small_rec_onnx",
            "b8f84f0b80c529de40b4fbb3544b84fa7233a513",
            18710,
        ),
        PpOcrV6Tier::Medium => (
            "PaddlePaddle/PP-OCRv6_medium_rec_onnx",
            "50c7eacafc52fa7bcf4194e8cd08e46f8558504b",
            18710,
        ),
    };
    let static_shape: [usize; 4] = [1, 3, 48, 320];
    assert(static_shape@ =~= seq![1usize, 3, 48, 320]);
    PpOcrRecognizerConfig { spec: PpOcrModelSpec { repo_id, revision, static_shape }, num_classes }
}

/// The four dimensions of a static input shape.
pub fn static_shape(shape: [usize; 4]) -> (dims: (usize, usize, usize, usize))
    ensures
        dims == (shape@[0], shape@[1], shape@[2], shape@[3]),
{
    (shape[0], shape[1], shape[2], shape[3])
}

/// Text of the first `k` recognizer indices under greedy CTC decoding: the
/// blank index zero and repeats of the previous index add nothing; any other
/// index adds its dictionary entry, one below it, when there is one.
pub open spec fn ctc_text(indices: Seq<usize>, dictionary: Seq<Seq<char>>, k: int) -> Seq<char>
    decreases k,
{
    if k <= 0 {
        seq![]
    } else {
        let before = ctc_text(indices, dictionary, k - 1);
        let index = indices[k - 1];
        if index == 0 || (k >= 2 && indices[k - 2] == index) {
            before
        } else if index - 1 < dictionary.len() {
            before + dictionary[index - 1]
        } else {
            before
        }
    }
}

/// Greedy CTC decoding of recognizer indices into text.
pub fn ctc_decode_indices(indices: &Vec<usize>, dictionary: &[String]) -> (text: String)
    ensures
        text@ == ctc_text(indices@, strings_view(dictionary@), indices@.len() as int),
{
    let mut previous: Option<usize> = None;
    let mut text = String::new();
    let mut k: usize = 0;
    while k < indices.len()
        invariant
            k <= indices@.len(),
            previous == if k == 0 {
                None::<usize>
            } else {
                Some(indices@[k - 1])
            },
            text@ == ctc_text(indices@, strings_view(dictionary@), k as int),
        decreases indices@.len() - k,
    {
        let index = indices[k];
        if index == 0 || previous == Some(index) {
            previous = Some(index);
        } else {
            if index - 1 < dictionary.len() {
                text.append(dictionary[index - 1].as_str());
            }
            previous = Some(index);
        }
        k = k + 1;
    }
    text
}

/// Pixels next to `(x, y)` inside a `width` by `height` grid, in the order
/// left, right, up, down.
pub open spec fn spec_neighbors(x: usize, y: usize, width: usize, height: usize) -> Seq<(usize, usize)> {
    let left = if x > 0 {
        seq![((x - 1) as usize, y)]
    } else {
        seq![]
    };
    let right = if x + 1 < width {
        seq![((x + 1) as usize, y)]
    } else {
        seq![]
    };
    let up = if y > 0 {
        seq![(x, (y - 1) as usize)]
    } else {
        seq![]
    };
    let down = if y + 1 < height {
        seq![(x, (y + 1) as usize)]
    } else {
        seq![]
    };
    left + right + up + down
}

/// Pixels next to a pixel inside a grid.
pub fn neighbors(x: usize, y: usize, width: usize, height: usize) -> (found: Vec<(usize, usize)>)
    requires
        x < usize::MAX,
        y < usize::MAX,
    ensures
        found@ == spec_neighbors(x, y, width, height),
{
    let mut found: Vec<(usize, usize)> = Vec::new();
    if x > 0 {
        found.push((x - 1, y));
    }
    if x + 1 < width {
        found.push((x + 1, y));
    }
    if y > 0 {
        found.push((x, y - 1));
    }
    if y + 1 < height {
        found.push((x, y + 1));
    }
    assert(found@ =~= spec_neighbors(x, y, width, height));
    found
}


/// Text of a quoted or plain YAML scalar: double-quoted text with `\"` and
/// `\\` unescaped, single-quoted text with `''` unescaped, or plain text up
/// to a ` #` comment.
pub open spec fn yaml_scalar(value: Seq<char>) -> Seq<char> {
    let double = match stripped_prefix(value, "\""@) {
        Some(rest) => stripped_suffix(rest, "\""@),
        None => None,
    };
    let single = match stripped_prefix(value, "'"@) {
        Some(rest) => stripped_suffix(rest, "'"@),
        None => None,
    };
    match double {
        Some(inner) => replaced(replaced(inner, "\\\""@, "\""@), "\\\\"@, "\\"@),
        None => match single {
            Some(inner) => replaced(inner, "''"@, "'"@),
            None => match before_first(value, " #"@) {
                Some(before) => before,
                None => value,
            },
        },
    }
}

/// Parses a quoted or plain YAML scalar.
pub fn parse_yaml_scalar(value: &str) -> (text: String)
    ensures
        text@ == yaml_scalar(value@),
{
    proof {
        reveal_strlit("\\\"");
        reveal_strlit("\\\\");
        reveal_strlit("''");
    }
    if let Some(rest) = strip_prefix(value, "\"") {
        if let Some(inner) = strip_suffix(rest, "\"") {
            let unescaped = replace_all(inner, "\\\"", "\"");
            return replace_all(unescaped.as_str(), "\\\\", "\\");
        }
    }
    if let Some(rest) = strip_prefix(value, "'") {
        if let Some(inner) = strip_suffix(rest, "'") {
            return replace_all(inner, "''", "'");
        }
    }
    match split_once_before(value, " #") {
        Some(before) => before.to_owned(),
        None => value.to_owned(),
    }
}

/// Ways the recognizer dictionary cannot be read from its inference config.
#[derive(Clone, Copy, PartialEq, Eq, Debug)]
pub enum DictionaryError {
    /// An inline `character_dict` value is not a bracketed list.
    UnsupportedInlineList,
    /// The config has no entries under `PostProcess.character_dict`.
    MissingCharacterDict,
}

/// Text of a dictionary error.
pub open spec fn dictionary_error_text(error: DictionaryError) -> Seq<char> {
    match error {
        DictionaryError::UnsupportedInlineList => "unsupported inline character_dict YAML value"@,
        DictionaryError::MissingCharacterDict => "PaddleOCR recognizer inference.yml missing PostProcess.character_dict"@,
    }
}

impl DictionaryError {
    /// Human-readable description of the error.
    pub fn message(&self) -> (text: &'static str)
        ensures
            text@ == dictionary_error_text(*self),
    {
        match self {
            DictionaryError::UnsupportedInlineList => "unsupported inline character_dict YAML value",
            DictionaryError::MissingCharacterDict => "PaddleOCR recognizer inference.yml missing PostProcess.character_dict",
        }
    }
}

/// Characters of each piece of a byte sequence.
pub open spec fn decoded_pieces(pieces: Seq<Seq<u8>>) -> Seq<Seq<char>> {
    pieces.map_values(|p: Seq<u8>| decode_utf8(p))
}

/// Entries of an inline YAML list `[a, b, ...]`, `None` when the value is not
/// bracketed.
pub open spec fn inline_yaml_list(value: Seq<char>) -> Option<Seq<Seq<char>>> {
    match stripped_prefix(value, "["@) {
        Some(rest) => match stripped_suffix(rest, "]"@) {
            Some(inner) => Some(
                decoded_pieces(split_bytes(encode_utf8(inner), 44u8)).map_values(
                    |item: Seq<char>| yaml_scalar(trimmed(item)),
                ),
            ),
            None => None,
        },
        None => None,
    }
}

/// Parses an inline YAML list of scalars.
pub fn parse_inline_yaml_list(value: &str) -> (items: Result<Vec<String>, DictionaryError>)
    ensures
        match inline_yaml_list(value@) {
            Some(list) => items matches Ok(v) && strings_view(v@) == list,
            None => items == Err::<Vec<String>, DictionaryError>(DictionaryError::UnsupportedInlineList),
        },
{
    let inner = match strip_prefix(value, "[") {
        Some(rest) => match strip_suffix(rest, "]") {
            Some(inner) => inner,
            None => return Err(DictionaryError::UnsupportedInlineList),
        },
        None => return Err(DictionaryError::UnsupportedInlineList),
    };
    let pieces = split_ascii(inner, 44u8);
    let ghost raw = decoded_pieces(split_bytes(encode_utf8(inner@), 44u8));
    let mut items: Vec<String> = Vec::new();
    let mut i: usize = 0;
    while i < pieces.len()
        invariant
            i <= pieces@.len(),
            pieces_bytes(pieces@) == split_bytes(inner.spec_bytes(), 44u8),
            raw == decoded_pieces(split_bytes(encode_utf8(inner@), 44u8)),
            raw.len() == pieces@.len(),
            items@.len() == i,
            forall|j: int| 0 <= j < i ==> (#[trigger] items@[j])@ == yaml_scalar(trimmed(raw[j])),
        decreases pieces@.len() - i,
    {
        proof {
            assert(pieces_bytes(pieces@)[i as int] == pieces@[i as int].spec_bytes());
            encode_utf8_decode_utf8(pieces@[i as int]@);
            assert(raw[i as int] == pieces@[i as int]@);
        }
        let item = parse_yaml_scalar(trim(pieces[i]));
        items.push(item);
        i = i + 1;
    }
    assert(strings_view(items@) =~= raw.map_values(|item: Seq<char>| yaml_scalar(trimmed(item))));
    Ok(items)
}

/// State of reading the dictionary from an inference config, line by line.
pub struct DictScan {
    pub in_postprocess: bool,
    pub postprocess_indent: int,
    pub character_dict_indent: int,
    pub in_character_dict: bool,
    pub done: bool,
    pub failed: bool,
    pub dictionary: Seq<Seq<char>>,
}

/// Byte length of the leading white space of a line.
pub open spec fn line_indent(line: Seq<char>) -> int {
    encode_utf8(line).len() - encode_utf8(trimmed_start(line)).len()
}

/// One line of the scan. Blank and comment lines are skipped. Inside a
/// `character_dict` block, `-` lines add entries and a less indented other
/// line ends the scan. Outside it, a `PostProcess:` line opens the section, a
/// line no more indented than that closes it, and inside the section a
/// `character_dict:` line either opens the block or, with an inline list,
/// adds the list's entries and ends the scan.
pub open spec fn dict_step(st: DictScan, line: Seq<char>) -> DictScan {
    let t = trimmed(line);
    let indent = line_indent(line);
    if st.done || st.failed || t.len() == 0 || "#"@.is_prefix_of(t) {
        st
    } else if st.in_character_dict {
        if indent <= st.character_dict_indent && !"-"@.is_prefix_of(t) {
            DictScan { done: true, ..st }
        } else if "-"@.is_prefix_of(t) {
            DictScan {
                dictionary: st.dictionary.push(yaml_scalar(trimmed(t.drop_first()))),
                ..st
            }
        } else {
            st
        }
    } else {
        let in_post = st.in_postprocess && !(indent <= st.postprocess_indent);
        if !in_post {
            if t == "PostProcess:"@ {
                DictScan { in_postprocess: true, postprocess_indent: indent, ..st }
            } else {
                DictScan { in_postprocess: false, ..st }
            }
        } else {
            match stripped_prefix(t, "character_dict:"@) {
                Some(rest) => {
                    let value = trimmed(rest);
                    if value.len() == 0 {
                        DictScan {
                            in_postprocess: in_post,
                            character_dict_indent: indent,
                            in_character_dict: true,
                            ..st
                        }
                    } else {
                        match inline_yaml_list(value) {
                            Some(items) => DictScan {
                                in_postprocess: in_post,
                                character_dict_indent: indent,
                                dictionary: st.dictionary + items,
                                done: true,
                                ..st
                            },
                            None => DictScan { failed: true, ..st },
                        }
                    }
                },
                None => DictScan { in_postprocess: in_post, ..st },
            }
        }
    }
}

/// Scan state after the first `k` lines.
pub open spec fn dict_scan_upto(lines: Seq<Seq<char>>, k: int) -> DictScan
    decreases k,
{
    if k <= 0 {
        DictScan {
            in_postprocess: false,
            postprocess_indent: 0,
            character_dict_indent: 0,
            in_character_dict: false,
            done: false,
            failed: false,
            dictionary: seq![],
        }
    } else {
        dict_step(dict_scan_upto(lines, k - 1), lines[k - 1])
    }
}

/// Dictionary read from an inference config.
pub open spec fn character_dict(yaml: Seq<char>) -> Result<Seq<Seq<char>>, DictionaryError> {
    let lines = decoded_pieces(split_bytes(encode_utf8(yaml), 10u8));
    let st = dict_scan_upto(lines, lines.len() as int);
    if st.failed {
        Err(DictionaryError::UnsupportedInlineList)
    } else if st.dictionary.len() == 0 {
        Err(DictionaryError::MissingCharacterDict)
    } else {
        Ok(st.dictionary)
    }
}

/// Scan state held while reading the dictionary.
pub struct DictScanner {
    pub in_postprocess: bool,
    pub postprocess_indent: usize,
    pub character_dict_indent: usize,
    pub in_character_dict: bool,
    pub done: bool,
    pub failed: bool,
    pub dictionary: Vec<String>,
}

/// Scan state a scanner holds.
pub open spec fn scanner_view(scanner: DictScanner) -> DictScan {
    DictScan {
        in_postprocess: scanner.in_postprocess,
        postprocess_indent: scanner.postprocess_indent as int,
        character_dict_indent: scanner.character_dict_indent as int,
        in_character_dict: scanner.in_character_dict,
        done: scanner.done,
        failed: scanner.failed,
        dictionary: strings_view(scanner.dictionary@),
    }
}

impl DictScanner {
    /// Scans one line of the inference config.
    pub fn scan_line(&mut self, line: &str)
        requires
            !old(self).done,
            !old(self).failed,
        ensures
            scanner_view(*final(self)) == dict_step(scanner_view(*old(self)), line@),
    {
        let t = trim(line);
        if t.unicode_len() == 0 || starts_with(t, "#") {
            return ;
        }
        let indent = line.as_bytes().len() - trim_start(line).as_bytes().len();
        if self.in_character_dict {
            if indent <= self.character_dict_indent && !starts_with(t, "-") {
                self.done = true;
                return ;
            }
            if let Some(value) = strip_prefix(t, "-") {
                let entry = parse_yaml_scalar(trim(value));
                let ghost before = self.dictionary@;
                self.dictionary.push(entry);
                assert(strings_view(self.dictionary@) =~= strings_view(before).push(entry@));
                proof {
                    reveal_strlit("-");
                    assert(t@.drop_first() =~= t@.subrange(1, t@.len() as int));
                }
            }
            return ;
        }
        if self.in_postprocess && indent <= self.postprocess_indent {
            self.in_postprocess = false;
        }
        if !self.in_postprocess {
            if str_eq(t, "PostProcess:") {
                self.in_postprocess = true;
                self.postprocess_indent = indent;
            }
            return ;
        }
        if let Some(rest) = strip_prefix(t, "character_dict:") {
            let value = trim(rest);
            if value.unicode_len() == 0 {
                self.character_dict_indent = indent;
                self.in_character_dict = true;
                return ;
            }
            match parse_inline_yaml_list(value) {
                Ok(mut items) => {
                    self.character_dict_indent = indent;
                    let ghost before = self.dictionary@;
                    let ghost added = items@;
                    self.dictionary.append(&mut items);
                    assert(strings_view(self.dictionary@) =~= strings_view(before) + strings_view(
                        added,
                    ));
                    self.done = true;
                },
                Err(_) => {
                    self.failed = true;
                },
            }
        }
    }
}

/// Reads the recognizer dictionary from the `PostProcess.character_dict`
/// entry of an inference config, as a block list or an inline list.
pub fn parse_character_dict(yaml: &str) -> (dictionary: Result<Vec<String>, DictionaryError>)
    ensures
        match character_dict(yaml@) {
            Ok(d) => dictionary matches Ok(v) && strings_view(v@) == d,
            Err(e) => dictionary == Err::<Vec<String>, DictionaryError>(e),
        },
{
    let pieces = split_newlines(yaml);
    let ghost lines = decoded_pieces(split_bytes(encode_utf8(yaml@), 10u8));
    let mut scanner = DictScanner {
        in_postprocess: false,
        postprocess_indent: 0,
        character_dict_indent: 0,
        in_character_dict: false,
        done: false,
        failed: false,
        dictionary: Vec::new(),
    };
    assert(scanner_view(scanner) == dict_scan_upto(lines, 0)) by {
        assert(strings_view(scanner.dictionary@) =~= seq![]);
    }
    let mut k: usize = 0;
    while k < pieces.len() && !scanner.done && !scanner.failed
        invariant
            k <= pieces@.len(),
            pieces_bytes(pieces@) == split_bytes(yaml.spec_bytes(), 10u8),
            lines == decoded_pieces(split_bytes(encode_utf8(yaml@), 10u8)),
            lines.len() == pieces@.len(),
            scanner_view(scanner) == dict_scan_upto(lines, k as int),
        decreases pieces@.len() - k,
    {
        let line = pieces[k];
        proof {
            assert(pieces_bytes(pieces@)[k as int] == line.spec_bytes());
            encode_utf8_decode_utf8(line@);
            assert(lines[k as int] == line@);
        }
        scanner.scan_line(line);
        k = k + 1;
    }
    proof {
        if scanner.done || scanner.failed {
            lemma_dict_scan_done(lines, k as int);
        }
    }
    if scanner.failed {
        return Err(DictionaryError::UnsupportedInlineList);
    }
    if scanner.dictionary.len() == 0 {
        return Err(DictionaryError::MissingCharacterDict);
    }
    Ok(scanner.dictionary)
}

/// Once the scan is done or failed it stays as it is.
proof fn lemma_dict_scan_done(lines: Seq<Seq<char>>, k: int)
    requires
        0 <= k <= lines.len(),
        dict_scan_upto(lines, k).done || dict_scan_upto(lines, k).failed,
    ensures
        dict_scan_upto(lines, lines.len() as int) == dict_scan_upto(lines, k),
    decreases lines.len() - k,
{
    if k < lines.len() {
        assert(dict_scan_upto(lines, k + 1) == dict_scan_upto(lines, k));
        lemma_dict_scan_done(lines, k + 1);
    }
}

} // verus!
