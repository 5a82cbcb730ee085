//! MIME types from file name and extension hints, and MIME classes.
use vstd::prelude::*;
use vstd::string::*;

use crate::extraction::SourceHint;
use crate::text::str_eq;

verus! {

/// Characters of `s` without its leading dots.
pub open spec fn strip_leading_dots(s: Seq<char>) -> Seq<char>
    decreases s.len(),
{
    if s.len() > 0 && s[0] == '.' {
        strip_leading_dots(s.drop_first())
    } else {
        s
    }
}

/// ASCII lowercase of a character; other characters stay as they are.
pub open spec fn ascii_lower(c: char) -> char {
    if 'A' <= c && c <= 'Z' {
        ((c as u32) + 32) as char
    } else {
        c
    }
}

/// ASCII lowercase of a character sequence.
pub open spec fn ascii_lowercase(s: Seq<char>) -> Seq<char> {
    s.map_values(|c: char| ascii_lower(c))
}

/// MIME type for a lowercase extension.
pub open spec fn mime_for_extension(e: Seq<char>) -> Option<Seq<char>> {
    if e == "c"@ || e == "cpp"@ || e == "cs"@ || e == "go"@ || e == "java"@ || e == "php"@ || e
        == "py"@ || e == "rb"@ || e == "rs"@ || e == "sh"@ || e == "sql"@ || e == "toml"@ || e
        == "ts"@ || e == "yaml"@ || e == "yml"@ {
        Some("text/plain"@)
    } else if e == "css"@ {
        Some("text/css"@)
    } else if e == "doc"@ {
        Some("application/msword"@)
    } else if e == "docx"@ {
        Some("application/vnd.openxmlformats-officedocument.wordprocessingml.document"@)
    } else if e == "epub"@ {
        Some("application/epub+zip"@)
    } else if e == "html"@ || e == "htm"@ {
        Some("text/html"@)
    } else if e == "js"@ {
        Some("text/javascript"@)
    } else if e == "json"@ {
        Some("application/json"@)
    } else if e == "md"@ || e == "markdown"@ {
        Some("text/markdown"@)
    } else if e == "pdf"@ {
        Some("application/pdf"@)
    } else if e == "pptx"@ {
        Some("application/vnd.openxmlformats-officedocument.presentationml.presentation"@)
    } else if e == "rtf"@ {
        Some("application/rtf"@)
    } else if e == "txt"@ || e == "text"@ {
        Some("text/plain"@)
    } else if e == "xhtml"@ {
        Some("application/xhtml+xml"@)
    } else if e == "xml"@ || e == "rss"@ {
        Some("application/xml"@)
    } else {
        None
    }
}

/// MIME type an extension hint maps to: leading dots are dropped and ASCII
/// letters compared without case.
pub open spec fn spec_extension_mime(ext: Seq<char>) -> Option<Seq<char>> {
    mime_for_extension(ascii_lowercase(strip_leading_dots(ext)))
}

/// Whether a MIME type is one of the office document types: Word
/// (`.doc`, `.docx`) and PowerPoint (`.pptx`).
pub open spec fn office_document_mime(m: Seq<char>) -> bool {
    m == "application/msword"@ || m
        == "application/vnd.openxmlformats-officedocument.presentationml.presentation"@ || m
        == "application/vnd.openxmlformats-officedocument.wordprocessingml.document"@
}

/// Optional string slice viewed as optional characters.
pub open spec fn opt_view(s: Option<&str>) -> Option<Seq<char>> {
    match s {
        Some(v) => Some(v@),
        None => None,
    }
}

/// Whether a character lowercases to `l`.
fn ascii_lower_eq(c: char, l: char) -> (eq: bool)
    ensures
        eq == (ascii_lower(c) == l),
{
    if 'A' <= c && c <= 'Z' {
        let code = (c as u32) + 32;
        proof {
            assert((code as char) as u32 == code);
        }
        (l as u32) == code
    } else {
        c == l
    }
}

/// Index of the first character of `s` after its leading dots.
fn leading_dots_end(s: &str) -> (k: usize)
    ensures
        k <= s@.len(),
        strip_leading_dots(s@) == s@.subrange(k as int, s@.len() as int),
{
    let len = s.unicode_len();
    let mut k: usize = 0;
    assert(s@.subrange(0, len as int) =~= s@);
    while k < len && s.get_char(k) == '.'
        invariant
            len == s@.len(),
            k <= len,
            strip_leading_dots(s@) == strip_leading_dots(s@.subrange(k as int, len as int)),
        decreases len - k,
    {
        assert(s@.subrange(k as int, len as int).drop_first() =~= s@.subrange(k + 1, len as int));
        k = k + 1;
    }
    if k < len {
        assert(s@.subrange(k as int, len as int)[0] == s@[k as int]);
    }
    k
}

/// Whether `s` from character `from` on, ASCII-lowercased, equals `lit`.
fn lower_suffix_eq(s: &str, from: usize, lit: &str) -> (eq: bool)
    requires
        from <= s@.len(),
    ensures
        eq == (ascii_lowercase(s@.subrange(from as int, s@.len() as int)) == lit@),
{
    let len = s.unicode_len();
    let n = lit.unicode_len();
    let ghost tail = s@.subrange(from as int, len as int);
    if len - from != n {
        assert(ascii_lowercase(tail).len() != lit@.len());
        return false;
    }
    let mut i: usize = 0;
    while i < n
        invariant
            len == s@.len(),
            n == lit@.len(),
            from + n == len,
            tail == s@.subrange(from as int, len as int),
            i <= n,
            forall|j: int| 0 <= j < i ==> ascii_lower(tail[j]) == lit@[j],
        decreases n - i,
    {
        if !ascii_lower_eq(s.get_char(from + i), lit.get_char(i)) {
            assert(ascii_lowercase(tail)[i as int] != lit@[i as int]);
            return false;
        }
        i = i + 1;
    }
    assert(ascii_lowercase(tail) =~= lit@);
    true
}

/// Map common extension hints to MIME types.
pub fn extension_mime(extension: &str) -> (mime: Option<&'static str>)
    ensures
        opt_view(mime) == spec_extension_mime(extension@),
{
    let k = leading_dots_end(extension);
    let e = extension;
    if lower_suffix_eq(e, k, "c") || lower_suffix_eq(e, k, "cpp") || lower_suffix_eq(e, k, "cs")
        || lower_suffix_eq(e, k, "go") || lower_suffix_eq(e, k, "java") || lower_suffix_eq(
        e,
        k,
        "php",
    ) || lower_suffix_eq(e, k, "py") || lower_suffix_eq(e, k, "rb") || lower_suffix_eq(e, k, "rs")
        || lower_suffix_eq(e, k, "sh") || lower_suffix_eq(e, k, "sql") || lower_suffix_eq(
        e,
        k,
        "toml",
    ) || lower_suffix_eq(e, k, "ts") || lower_suffix_eq(e, k, "yaml") || lower_suffix_eq(
        e,
        k,
        "yml",
    ) {
        Some("text/plain")
    } else if lower_suffix_eq(e, k, "css") {
        Some("text/css")
    } else if lower_suffix_eq(e, k, "doc") {
        Some("application/msword")
    } else if lower_suffix_eq(e, k, "docx") {
        Some("application/vnd.openxmlformats-officedocument.wordprocessingml.document")
    } else if lower_suffix_eq(e, k, "epub") {
        Some("application/epub+zip")
    } else if lower_suffix_eq(e, k, "html") || lower_suffix_eq(e, k, "htm") {
        Some("text/html")
    } else if lower_suffix_eq(e, k, "js") {
        Some("text/javascript")
    } else if lower_suffix_eq(e, k, "json") {
        Some("application/json")
    } else if lower_suffix_eq(e, k, "md") || lower_suffix_eq(e, k, "markdown") {
        Some("text/markdown")
    } else if lower_suffix_eq(e, k, "pdf") {
        Some("application/pdf")
    } else if lower_suffix_eq(e, k, "pptx") {
        Some("application/vnd.openxmlformats-officedocument.presentationml.presentation")
    } else if lower_suffix_eq(e, k, "rtf") {
        Some("application/rtf")
    } else if lower_suffix_eq(e, k, "txt") || lower_suffix_eq(e, k, "text") {
        Some("text/plain")
    } else if lower_suffix_eq(e, k, "xhtml") {
        Some("application/xhtml+xml")
    } else if lower_suffix_eq(e, k, "xml") || lower_suffix_eq(e, k, "rss") {
        Some("application/xml")
    } else {
        None
    }
}

/// Index of the last `.` in `s`, if any.
pub open spec fn last_dot(s: Seq<char>) -> Option<int> {
    if exists|i: int| 0 <= i < s.len() && s[i] == '.' {
        Some(choose|i: int| 0 <= i < s.len() && s[i] == '.' && forall|j: int| i < j < s.len() ==> s[j] != '.')
    } else {
        None
    }
}

/// Characters after the last `.` of `s`, as `rsplit_once('.')` gives them.
pub open spec fn after_last_dot(s: Seq<char>) -> Option<Seq<char>> {
    match last_dot(s) {
        Some(i) => Some(s.subrange(i + 1, s.len() as int)),
        None => None,
    }
}

/// Returns the part of `s` after its last `.`, if it has one.
fn extension_of_name(s: &str) -> (ext: Option<&str>)
    ensures
        opt_view(ext) == after_last_dot(s@),
{
    let len = s.unicode_len();
    let mut i: usize = len;
    while i > 0
        invariant
            len == s@.len(),
            i <= len,
            forall|j: int| i <= j < len ==> s@[j] != '.',
        decreases i,
    {
        if s.get_char(i - 1) == '.' {
            let ghost k = i - 1;
            assert(0 <= k < s@.len() && s@[k] == '.' && forall|j: int| k < j < s@.len() ==> s@[j]
                != '.');
            proof {
                let c = choose|c: int|
                    0 <= c < s@.len() && s@[c] == '.' && forall|j: int| c < j < s@.len() ==> s@[j]
                        != '.';
                assert(c == k) by {
                    if c < k {
                        assert(s@[k] != '.');
                    } else if c > k {
                        assert(s@[c] != '.');
                    }
                }
            }
            return Some(s.substring_char(i, len));
        }
        i = i - 1;
    }
    None
}

/// MIME type a hint prefers: its MIME type, else the one its extension maps
/// to, else the one the extension of its file name maps to.
pub open spec fn spec_preferred_mime(hint: SourceHint) -> Option<Seq<char>> {
    match hint.mime_type {
        Some(m) => Some(m@),
        None => {
            let ext = match hint.extension {
                Some(e) => Some(e@),
                None => match hint.file_name {
                    Some(f) => after_last_dot(f@),
                    None => None,
                },
            };
            match ext {
                Some(e) => spec_extension_mime(e),
                None => None,
            }
        },
    }
}

impl SourceHint {
    /// Resolve preferred MIME type for byte extraction.
    pub fn preferred_mime(&self) -> (mime: Option<&str>)
        ensures
            opt_view(mime) == spec_preferred_mime(*self),
    {
        if let Some(mime_type) = &self.mime_type {
            return Some(mime_type.as_str());
        }
        let ext = match &self.extension {
            Some(e) => Some(e.as_str()),
            None => match &self.file_name {
                Some(f) => extension_of_name(f.as_str()),
                None => None,
            },
        };
        match ext {
            Some(e) => {
                let m = extension_mime(e);
                match m {
                    Some(v) => Some(v),
                    None => None,
                }
            },
            None => None,
        }
    }
}

/// Whether a MIME type is an image type that OCR reads.
pub fn is_image_mime(mime_type: &str) -> (image: bool)
    ensures
        image == (mime_type@ == "image/bmp"@ || mime_type@ == "image/jpeg"@ || mime_type@
            == "image/png"@ || mime_type@ == "image/tiff"@),
{
    str_eq(mime_type, "image/bmp") || str_eq(mime_type, "image/jpeg") || str_eq(
        mime_type,
        "image/png",
    ) || str_eq(mime_type, "image/tiff")
}

/// Whether a MIME type is an office document type.
pub fn is_office_document_mime(mime_type: &str) -> (office: bool)
    ensures
        office == office_document_mime(mime_type@),
{
    str_eq(mime_type, "application/msword") || str_eq(
        mime_type,
        "application/vnd.openxmlformats-officedocument.presentationml.presentation",
    ) || str_eq(
        mime_type,
        "application/vnd.openxmlformats-officedocument.wordprocessingml.document",
    )
}

/// Whether a MIME type is a structured text type that is read as it is.
pub fn is_structured_text_mime(mime_type: &str) -> (structured: bool)
    ensures
        structured == (mime_type@ == "application/rss+xml"@ || mime_type@
            == "application/xhtml+xml"@ || mime_type@ == "application/xml"@ || mime_type@
            == "text/html"@ || mime_type@ == "text/markdown"@ || mime_type@ == "text/xml"@),
{
    str_eq(mime_type, "application/rss+xml") || str_eq(mime_type, "application/xhtml+xml")
        || str_eq(mime_type, "application/xml") || str_eq(mime_type, "text/html") || str_eq(
        mime_type,
        "text/markdown",
    ) || str_eq(mime_type, "text/xml")
}

/// The characters of each extension of the table.
proof fn lemma_extension_literals()
    ensures
        "c"@ == seq!['c'],
        "cpp"@ == seq!['c', 'p', 'p'],
        "cs"@ == seq!['c', 's'],
        "go"@ == seq!['g', 'o'],
        "java"@ == seq!['j', 'a', 'v', 'a'],
        "php"@ == seq!['p', 'h', 'p'],
        "py"@ == seq!['p', 'y'],
        "rb"@ == seq!['r', 'b'],
        "rs"@ == seq!['r', 's'],
        "sh"@ == seq!['s', 'h'],
        "sql"@ == seq!['s', 'q', 'l'],
        "toml"@ == seq!['t', 'o', 'm', 'l'],
        "ts"@ == seq!['t', 's'],
        "yaml"@ == seq!['y', 'a', 'm', 'l'],
        "yml"@ == seq!['y', 'm', 'l'],
        "txt"@ == seq!['t', 'x', 't'],
        "text"@ == seq!['t', 'e', 'x', 't'],
        "css"@ == seq!['c', 's', 's'],
        "doc"@ == seq!['d', 'o', 'c'],
        "docx"@ == seq!['d', 'o', 'c', 'x'],
        "epub"@ == seq!['e', 'p', 'u', 'b'],
        "html"@ == seq!['h', 't', 'm', 'l'],
        "htm"@ == seq!['h', 't', 'm'],
        "js"@ == seq!['j', 's'],
        "json"@ == seq!['j', 's', 'o', 'n'],
        "md"@ == seq!['m', 'd'],
        "markdown"@ == seq!['m', 'a', 'r', 'k', 'd', 'o', 'w', 'n'],
        "pdf"@ == seq!['p', 'd', 'f'],
        "pptx"@ == seq!['p', 'p', 't', 'x'],
        "rtf"@ == seq!['r', 't', 'f'],
        "xhtml"@ == seq!['x', 'h', 't', 'm', 'l'],
        "xml"@ == seq!['x', 'm', 'l'],
        "rss"@ == seq!['r', 's', 's'],
{
    reveal_strlit("c");
    assert("c"@ =~= seq!['c']);
    reveal_strlit("cpp");
    assert("cpp"@ =~= seq!['c', 'p', 'p']);
    reveal_strlit("cs");
    assert("cs"@ =~= seq!['c', 's']);
    reveal_strlit("go");
    assert("go"@ =~= seq!['g', 'o']);
    reveal_strlit("java");
    assert("java"@ =~= seq!['j', 'a', 'v', 'a']);
    reveal_strlit("php");
    assert("php"@ =~= seq!['p', 'h', 'p']);
    reveal_strlit("py");
    assert("py"@ =~= seq!['p', 'y']);
    reveal_strlit("rb");
    assert("rb"@ =~= seq!['r', 'b']);
    reveal_strlit("rs");
    assert("rs"@ =~= seq!['r', 's']);
    reveal_strlit("sh");
    assert("sh"@ =~= seq!['s', 'h']);
    reveal_strlit("sql");
    assert("sql"@ =~= seq!['s', 'q', 'l']);
    reveal_strlit("toml");
    assert("toml"@ =~= seq!['t', 'o', 'm', 'l']);
    reveal_strlit("ts");
    assert("ts"@ =~= seq!['t', 's']);
    reveal_strlit("yaml");
    assert("yaml"@ =~= seq!['y', 'a', 'm', 'l']);
    reveal_strlit("yml");
    assert("yml"@ =~= seq!['y', 'm', 'l']);
    reveal_strlit("txt");
    assert("txt"@ =~= seq!['t', 'x', 't']);
    reveal_strlit("text");
    assert("text"@ =~= seq!['t', 'e', 'x', 't']);
    reveal_strlit("css");
    assert("css"@ =~= seq!['c', 's', 's']);
    reveal_strlit("doc");
    assert("doc"@ =~= seq!['d', 'o', 'c']);
    reveal_strlit("docx");
    assert("docx"@ =~= seq!['d', 'o', 'c', 'x']);
    reveal_strlit("epub");
    assert("epub"@ =~= seq!['e', 'p', 'u', 'b']);
    reveal_strlit("html");
    assert("html"@ =~= seq!['h', 't', 'm', 'l']);
    reveal_strlit("htm");
    assert("htm"@ =~= seq!['h', 't', 'm']);
    reveal_strlit("js");
    assert("js"@ =~= seq!['j', 's']);
    reveal_strlit("json");
    assert("json"@ =~= seq!['j', 's', 'o', 'n']);
    reveal_strlit("md");
    assert("md"@ =~= seq!['m', 'd']);
    reveal_strlit("markdown");
    assert("markdown"@ =~= seq!['m', 'a', 'r', 'k', 'd', 'o', 'w', 'n']);
    reveal_strlit("pdf");
    assert("pdf"@ =~= seq!['p', 'd', 'f']);
    reveal_strlit("pptx");
    assert("pptx"@ =~= seq!['p', 'p', 't', 'x']);
    reveal_strlit("rtf");
    assert("rtf"@ =~= seq!['r', 't', 'f']);
    reveal_strlit("xhtml");
    assert("xhtml"@ =~= seq!['x', 'h', 't', 'm', 'l']);
    reveal_strlit("xml");
    assert("xml"@ =~= seq!['x', 'm', 'l']);
    reveal_strlit("rss");
    assert("rss"@ =~= seq!['r', 's', 's']);
}

/// The lengths of the MIME types of the table.
proof fn lemma_mime_literals()
    ensures
        "text/plain"@.len() == 10,
        "text/css"@.len() == 8,
        "application/msword"@.len() == 18,
        "application/vnd.openxmlformats-officedocument.wordprocessingml.document"@.len() == 71,
        "application/epub+zip"@.len() == 20,
        "text/html"@.len() == 9,
        "text/javascript"@.len() == 15,
        "application/json"@.len() == 16,
        "text/markdown"@.len() == 13,
        "application/pdf"@.len() == 15,
        "application/vnd.openxmlformats-officedocument.presentationml.presentation"@.len() == 73,
        "application/rtf"@.len() == 15,
        "application/xhtml+xml"@.len() == 21,
        "application/xml"@.len() == 15,
{
    reveal_strlit("text/plain");
    reveal_strlit("text/css");
    reveal_strlit("application/msword");
    reveal_strlit("application/vnd.openxmlformats-officedocument.wordprocessingml.document");
    reveal_strlit("application/epub+zip");
    reveal_strlit("text/html");
    reveal_strlit("text/javascript");
    reveal_strlit("application/json");
    reveal_strlit("text/markdown");
    reveal_strlit("application/pdf");
    reveal_strlit("application/vnd.openxmlformats-officedocument.presentationml.presentation");
    reveal_strlit("application/rtf");
    reveal_strlit("application/xhtml+xml");
    reveal_strlit("application/xml");
}

/// Every extension of the table maps to its MIME type, whatever the case of
/// its letters and however many dots lead it; an extension outside the table
/// maps to none.
pub proof fn lemma_extension_table(ext: Seq<char>, l: Seq<char>)
    requires
        l == ascii_lowercase(strip_leading_dots(ext)),
    ensures
        (l == "c"@ || l == "cpp"@ || l == "cs"@ || l == "go"@ || l == "java"@ || l == "php"@ || l == "py"@ || l == "rb"@ || l == "rs"@ || l == "sh"@ || l == "sql"@ || l == "toml"@ || l == "ts"@ || l == "yaml"@ || l == "yml"@ || l == "txt"@ || l == "text"@) ==> spec_extension_mime(ext) == Some("text/plain"@),
        (l == "css"@) ==> spec_extension_mime(ext) == Some("text/css"@),
        (l == "doc"@) ==> spec_extension_mime(ext) == Some("application/msword"@),
        (l == "docx"@) ==> spec_extension_mime(ext) == Some("application/vnd.openxmlformats-officedocument.wordprocessingml.document"@),
        (l == "epub"@) ==> spec_extension_mime(ext) == Some("application/epub+zip"@),
        (l == "html"@ || l == "htm"@) ==> spec_extension_mime(ext) == Some("text/html"@),
        (l == "js"@) ==> spec_extension_mime(ext) == Some("text/javascript"@),
        (l == "json"@) ==> spec_extension_mime(ext) == Some("application/json"@),
        (l == "md"@ || l == "markdown"@) ==> spec_extension_mime(ext) == Some("text/markdown"@),
        (l == "pdf"@) ==> spec_extension_mime(ext) == Some("application/pdf"@),
        (l == "pptx"@) ==> spec_extension_mime(ext) == Some("application/vnd.openxmlformats-officedocument.presentationml.presentation"@),
        (l == "rtf"@) ==> spec_extension_mime(ext) == Some("application/rtf"@),
        (l == "xhtml"@) ==> spec_extension_mime(ext) == Some("application/xhtml+xml"@),
        (l == "xml"@ || l == "rss"@) ==> spec_extension_mime(ext) == Some("application/xml"@),
        !(l == "c"@ || l == "cpp"@ || l == "cs"@ || l == "go"@ || l == "java"@ || l == "php"@ || l == "py"@ || l == "rb"@ || l == "rs"@ || l == "sh"@ || l == "sql"@ || l == "toml"@ || l == "ts"@ || l == "yaml"@ || l == "yml"@ || l == "txt"@ || l == "text"@ || l == "css"@ || l == "doc"@ || l == "docx"@ || l == "epub"@ || l == "html"@ || l == "htm"@ || l == "js"@ || l == "json"@ || l == "md"@ || l == "markdown"@ || l == "pdf"@ || l == "pptx"@ || l == "rtf"@ || l == "xhtml"@ || l == "xml"@ || l == "rss"@) ==> spec_extension_mime(ext)
            is None,
{
    lemma_extension_literals();
    if l == "c"@ {
        assert(l.len() == 1); assert(l[0] == 'c');
    } else if l == "cpp"@ {
        assert(l.len() == 3); assert(l[0] == 'c'); assert(l[1] == 'p'); assert(l[2] == 'p');
    } else if l == "cs"@ {
        assert(l.len() == 2); assert(l[0] == 'c'); assert(l[1] == 's');
    } else if l == "go"@ {
        assert(l.len() == 2); assert(l[0] == 'g'); assert(l[1] == 'o');
    } else if l == "java"@ {
        assert(l.len() == 4); assert(l[0] == 'j'); assert(l[1] == 'a'); assert(l[2] == 'v'); assert(l[3] == 'a');
    } else if l == "php"@ {
        assert(l.len() == 3); assert(l[0] == 'p'); assert(l[1] == 'h'); assert(l[2] == 'p');
    } else if l == "py"@ {
        assert(l.len() == 2); assert(l[0] == 'p'); assert(l[1] == 'y');
    } else if l == "rb"@ {
        assert(l.len() == 2); assert(l[0] == 'r'); assert(l[1] == 'b');
    } else if l == "rs"@ {
        assert(l.len() == 2); assert(l[0] == 'r'); assert(l[1] == 's');
    } else if l == "sh"@ {
        assert(l.len() == 2); assert(l[0] == 's'); assert(l[1] == 'h');
    } else if l == "sql"@ {
        assert(l.len() == 3); assert(l[0] == 's'); assert(l[1] == 'q'); assert(l[2] == 'l');
    } else if l == "toml"@ {
        assert(l.len() == 4); assert(l[0] == 't'); assert(l[1] == 'o'); assert(l[2] == 'm'); assert(l[3] == 'l');
    } else if l == "ts"@ {
        assert(l.len() == 2); assert(l[0] == 't'); assert(l[1] == 's');
    } else if l == "yaml"@ {
        assert(l.len() == 4); assert(l[0] == 'y'); assert(l[1] == 'a'); assert(l[2] == 'm'); assert(l[3] == 'l');
    } else if l == "yml"@ {
        assert(l.len() == 3); assert(l[0] == 'y'); assert(l[1] == 'm'); assert(l[2] == 'l');
    } else if l == "txt"@ {
        assert(l.len() == 3); assert(l[0] == 't'); assert(l[1] == 'x'); assert(l[2] == 't');
    } else if l == "text"@ {
        assert(l.len() == 4); assert(l[0] == 't'); assert(l[1] == 'e'); assert(l[2] == 'x'); assert(l[3] == 't');
    } else if l == "css"@ {
        assert(l.len() == 3); assert(l[0] == 'c'); assert(l[1] == 's'); assert(l[2] == 's');
    } else if l == "doc"@ {
        assert(l.len() == 3); assert(l[0] == 'd'); assert(l[1] == 'o'); assert(l[2] == 'c');
    } else if l == "docx"@ {
        assert(l.len() == 4); assert(l[0] == 'd'); assert(l[1] == 'o'); assert(l[2] == 'c'); assert(l[3] == 'x');
    } else if l == "epub"@ {
        assert(l.len() == 4); assert(l[0] == 'e'); assert(l[1] == 'p'); assert(l[2] == 'u'); assert(l[3] == 'b');
    } else if l == "html"@ {
        assert(l.len() == 4); assert(l[0] == 'h'); assert(l[1] == 't'); assert(l[2] == 'm'); assert(l[3] == 'l');
    } else if l == "htm"@ {
        assert(l.len() == 3); assert(l[0] == 'h'); assert(l[1] == 't'); assert(l[2] == 'm');
    } else if l == "js"@ {
        assert(l.len() == 2); assert(l[0] == 'j'); assert(l[1] == 's');
    } else if l == "json"@ {
        assert(l.len() == 4); assert(l[0] == 'j'); assert(l[1] == 's'); assert(l[2] == 'o'); assert(l[3] == 'n');
    } else if l == "md"@ {
        assert(l.len() == 2); assert(l[0] == 'm'); assert(l[1] == 'd');
    } else if l == "markdown"@ {
        assert(l.len() == 8); assert(l[0] == 'm'); assert(l[1] == 'a'); assert(l[2] == 'r'); assert(l[3] == 'k'); assert(l[4] == 'd'); assert(l[5] == 'o'); assert(l[6] == 'w'); assert(l[7] == 'n');
    } else if l == "pdf"@ {
        assert(l.len() == 3); assert(l[0] == 'p'); assert(l[1] == 'd'); assert(l[2] == 'f');
    } else if l == "pptx"@ {
        assert(l.len() == 4); assert(l[0] == 'p'); assert(l[1] == 'p'); assert(l[2] == 't'); assert(l[3] == 'x');
    } else if l == "rtf"@ {
        assert(l.len() == 3); assert(l[0] == 'r'); assert(l[1] == 't'); assert(l[2] == 'f');
    } else if l == "xhtml"@ {
        assert(l.len() == 5); assert(l[0] == 'x'); assert(l[1] == 'h'); assert(l[2] == 't'); assert(l[3] == 'm'); assert(l[4] == 'l');
    } else if l == "xml"@ {
        assert(l.len() == 3); assert(l[0] == 'x'); assert(l[1] == 'm'); assert(l[2] == 'l');
    } else if l == "rss"@ {
        assert(l.len() == 3); assert(l[0] == 'r'); assert(l[1] == 's'); assert(l[2] == 's');
    }
}

/// An extension hint maps to an office document MIME type exactly when it is
/// `doc`, `docx` or `pptx`, so exactly those are routed to office extraction.
pub proof fn lemma_office_extensions(ext: Seq<char>, l: Seq<char>)
    requires
        l == ascii_lowercase(strip_leading_dots(ext)),
    ensures
        (spec_extension_mime(ext) matches Some(m) && office_document_mime(m)) <==> (l == "doc"@
            || l == "docx"@ || l == "pptx"@),
{
    lemma_extension_table(ext, l);
    lemma_mime_literals();
}

} // verus!
