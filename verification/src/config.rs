//! Application configuration: its sections, name and file rules, the order
//! of configuration files, and the report of unknown fields.
use vstd::prelude::*;
use vstd::string::*;

use crate::text::{ends_with, join_seq, join_strings, str_eq, strings_view};

pub mod yaml;

verus! {

/// Configured filesystem location for indexing.
pub struct IndexLocation {
    /// Human-readable unique-ish display name.
    pub name: String,
    /// Human-readable purpose for this indexed location.
    pub description: Option<String>,
    /// Canonical filesystem path to scan.
    pub path: String,
}

/// File indexing configuration section.
pub struct IndexingConfig {
    /// Configured file locations to index.
    pub locations: Vec<IndexLocation>,
}

impl Default for IndexingConfig {
    fn default() -> (config: Self)
        ensures
            config.locations@.len() == 0,
    {
        IndexingConfig { locations: Vec::new() }
    }
}

/// Root app configuration persisted as YAML.
pub struct AppConfig {
    /// File indexing configuration.
    pub indexing: IndexingConfig,
}

impl Default for AppConfig {
    fn default() -> (config: Self)
        ensures
            config.indexing.locations@.len() == 0,
    {
        AppConfig { indexing: IndexingConfig::default() }
    }
}

/// Characters allowed in names: ASCII letters and digits, `-` and `_`.
pub open spec fn name_char(c: char) -> bool {
    ('a' <= c && c <= 'z') || ('A' <= c && c <= 'Z') || ('0' <= c && c <= '9') || c == '-' || c
        == '_'
}

/// Whether a name is non-empty and made of allowed characters only.
pub open spec fn valid_name(name: Seq<char>) -> bool {
    name.len() > 0 && forall|i: int| 0 <= i < name.len() ==> name_char(#[trigger] name[i])
}

/// Returns true when name uses supported simple characters.
pub fn is_valid_name(name: &str) -> (valid: bool)
    ensures
        valid == valid_name(name@),
{
    let len = name.unicode_len();
    if len == 0 {
        return false;
    }
    let mut i: usize = 0;
    while i < len
        invariant
            len == name@.len(),
            i <= len,
            forall|j: int| 0 <= j < i ==> name_char(#[trigger] name@[j]),
        decreases len - i,
    {
        let c = name.get_char(i);
        if !(('a' <= c && c <= 'z') || ('A' <= c && c <= 'Z') || ('0' <= c && c <= '9') || c == '-'
            || c == '_') {
            return false;
        }
        i = i + 1;
    }
    true
}

/// Whether a file name is a YAML configuration file name.
pub open spec fn config_file_name(file_name: Seq<char>) -> bool {
    ".yaml"@.is_suffix_of(file_name) || ".yml"@.is_suffix_of(file_name)
}

/// Whether a file, by its name, is a YAML configuration file.
pub fn is_config_file(file_name: &str) -> (config: bool)
    ensures
        config == config_file_name(file_name@),
{
    ends_with(file_name, ".yaml") || ends_with(file_name, ".yml")
}

/// Lexicographic order of character sequences by code point, the order of
/// `String` and of file names.
pub open spec fn seq_lt(a: Seq<char>, b: Seq<char>) -> bool
    decreases a.len(),
{
    if a.len() == 0 {
        b.len() > 0
    } else if b.len() == 0 {
        false
    } else if a[0] != b[0] {
        (a[0] as u32) < (b[0] as u32)
    } else {
        seq_lt(a.drop_first(), b.drop_first())
    }
}

/// No sequence is before itself.
pub proof fn lemma_seq_lt_irreflexive(a: Seq<char>)
    ensures
        !seq_lt(a, a),
    decreases a.len(),
{
    if a.len() > 0 {
        lemma_seq_lt_irreflexive(a.drop_first());
    }
}

/// The order is transitive.
pub proof fn lemma_seq_lt_transitive(a: Seq<char>, b: Seq<char>, c: Seq<char>)
    requires
        seq_lt(a, b),
        seq_lt(b, c),
    ensures
        seq_lt(a, c),
    decreases a.len(),
{
    if a.len() > 0 && b.len() > 0 && c.len() > 0 && a[0] == b[0] && b[0] == c[0] {
        lemma_seq_lt_transitive(a.drop_first(), b.drop_first(), c.drop_first());
    }
}

/// Of two different sequences one is before the other.
pub proof fn lemma_seq_lt_total(a: Seq<char>, b: Seq<char>)
    requires
        a != b,
    ensures
        seq_lt(a, b) || seq_lt(b, a),
    decreases a.len(),
{
    if a.len() == 0 && b.len() == 0 {
        assert(a =~= b);
    } else if a.len() > 0 && b.len() > 0 && a[0] == b[0] {
        if a.drop_first() == b.drop_first() {
            assert(a =~= seq![a[0]] + a.drop_first());
            assert(b =~= seq![b[0]] + b.drop_first());
        }
        lemma_seq_lt_total(a.drop_first(), b.drop_first());
    } else if a.len() > 0 && b.len() > 0 {
        let x = a[0];
        let y = b[0];
        if (x as u32) == (y as u32) {
            vstd::utf8::char_u32_cast(x, x as u32);
            vstd::utf8::char_u32_cast(y, y as u32);
            assert(false);
        }
    }
}

/// Whether `a` comes before `b`.
pub fn str_lt(a: &str, b: &str) -> (less: bool)
    ensures
        less == seq_lt(a@, b@),
{
    let n = a.unicode_len();
    let m = b.unicode_len();
    let mut i: usize = 0;
    assert(a@.subrange(0, n as int) =~= a@);
    assert(b@.subrange(0, m as int) =~= b@);
    while i < n && i < m
        invariant
            n == a@.len(),
            m == b@.len(),
            i <= n,
            i <= m,
            seq_lt(a@, b@) == seq_lt(a@.subrange(i as int, n as int), b@.subrange(i as int, m as int)),
        decreases n - i,
    {
        let x = a.get_char(i);
        let y = b.get_char(i);
        let ghost ra = a@.subrange(i as int, n as int);
        let ghost rb = b@.subrange(i as int, m as int);
        assert(ra[0] == x && rb[0] == y);
        if x != y {
            return (x as u32) < (y as u32);
        }
        assert(ra.drop_first() =~= a@.subrange(i + 1, n as int));
        assert(rb.drop_first() =~= b@.subrange(i + 1, m as int));
        i = i + 1;
    }
    i == n && i < m
}

/// Whether a sequence is strictly increasing.
pub open spec fn strictly_sorted(s: Seq<Seq<char>>) -> bool {
    forall|i: int, j: int| 0 <= i < j < s.len() ==> seq_lt(#[trigger] s[i], #[trigger] s[j])
}

/// The distinct strings of a list, in increasing order.
pub fn sorted_unique(items: &Vec<String>) -> (sorted: Vec<String>)
    ensures
        strictly_sorted(strings_view(sorted@)),
        forall|x: Seq<char>| #[trigger]
            strings_view(sorted@).contains(x) <==> strings_view(items@).contains(x),
{
    let mut sorted: Vec<String> = Vec::new();
    let mut k: usize = 0;
    while k < items.len()
        invariant
            k <= items@.len(),
            strictly_sorted(strings_view(sorted@)),
            forall|x: Seq<char>| #[trigger]
                strings_view(sorted@).contains(x) <==> strings_view(items@.subrange(
                    0,
                    k as int,
                )).contains(x),
        decreases items@.len() - k,
    {
        let item = items[k].as_str();
        let ghost old_view = strings_view(sorted@);
        let mut i: usize = 0;
        while i < sorted.len() && str_lt(sorted[i].as_str(), item)
            invariant
                i <= sorted@.len(),
                old_view == strings_view(sorted@),
                forall|j: int| 0 <= j < i ==> seq_lt(#[trigger] old_view[j], item@),
            decreases sorted@.len() - i,
        {
            i = i + 1;
        }
        let present = i < sorted.len() && str_eq(sorted[i].as_str(), item);
        proof {
            let next = strings_view(items@.subrange(0, k as int + 1));
            assert(next =~= strings_view(items@.subrange(0, k as int)).push(item@));
        }
        if !present {
            sorted.insert(i, item.to_owned());
            proof {
                let new_view = strings_view(sorted@);
                assert(new_view =~= old_view.insert(i as int, item@));
                if i < old_view.len() {
                    lemma_seq_lt_total(old_view[i as int], item@);
                }
                assert forall|a: int, b: int| 0 <= a < b < new_view.len() implies seq_lt(
                    #[trigger] new_view[a],
                    #[trigger] new_view[b],
                ) by {
                    if b < i {
                    } else if b == i {
                    } else if a == i {
                        if b - 1 > i {
                            lemma_seq_lt_transitive(item@, old_view[i as int], old_view[b - 1]);
                        }
                    } else if a < i {
                        if b - 1 >= i {
                            if b - 1 > i {
                                lemma_seq_lt_transitive(old_view[a], item@, old_view[i as int]);
                                lemma_seq_lt_transitive(old_view[a], old_view[i as int], old_view[b - 1]);
                            } else {
                                lemma_seq_lt_transitive(old_view[a], item@, old_view[i as int]);
                            }
                        }
                    } else {
                    }
                }
                assert forall|x: Seq<char>| #[trigger] new_view.contains(x) <==> old_view.contains(x)
                    || x == item@ by {
                    if new_view.contains(x) {
                        let w = choose|w: int| 0 <= w < new_view.len() && new_view[w] == x;
                        if w < i {
                            assert(old_view[w] == x);
                        } else if w > i {
                            assert(old_view[w - 1] == x);
                        }
                    }
                    if old_view.contains(x) {
                        let w = choose|w: int| 0 <= w < old_view.len() && old_view[w] == x;
                        if w < i {
                            assert(new_view[w] == x);
                        } else {
                            assert(new_view[w + 1] == x);
                        }
                    }
                    if x == item@ {
                        assert(new_view[i as int] == x);
                    }
                }
            }
        } else {
            proof {
                assert(old_view[i as int] == item@);
                assert forall|x: Seq<char>| #[trigger] old_view.contains(x) <==> old_view.contains(x)
                    || x == item@ by {
                    if x == item@ {
                        assert(old_view.contains(x));
                    }
                }
            }
        }
        proof {
            let next = strings_view(items@.subrange(0, k as int + 1));
            let prev = strings_view(items@.subrange(0, k as int));
            assert forall|x: Seq<char>| #[trigger] next.contains(x) <==> prev.contains(x) || x
                == item@ by {
                if next.contains(x) {
                    let w = choose|w: int| 0 <= w < next.len() && next[w] == x;
                    if w < prev.len() {
                        assert(prev[w] == x);
                    }
                }
                if prev.contains(x) {
                    let w = choose|w: int| 0 <= w < prev.len() && prev[w] == x;
                    assert(next[w] == x);
                }
                if x == item@ {
                    assert(next[k as int] == x);
                }
            }
        }
        k = k + 1;
    }
    assert(items@.subrange(0, k as int) =~= items@);
    sorted
}

/// Report of unknown configuration fields: their distinct paths in order,
/// joined by commas.
pub open spec fn unknown_fields_text(sorted: Seq<Seq<char>>) -> Seq<char> {
    "Unknown config field(s): "@ + join_seq(sorted, ", "@)
}

/// Error message for unknown configuration fields, `None` when there are
/// none.
pub fn unknown_fields_message(fields: &Vec<String>) -> (message: Option<String>)
    ensures
        fields@.len() == 0 <==> message is None,
        message matches Some(m) ==> exists|sorted: Seq<Seq<char>>|
            #![trigger unknown_fields_text(sorted)]
            strictly_sorted(sorted) && (forall|x: Seq<char>| #[trigger]
                sorted.contains(x) <==> strings_view(fields@).contains(x)) && m@
                == unknown_fields_text(sorted),
{
    if fields.len() == 0 {
        return None;
    }
    let sorted = sorted_unique(fields);
    let joined = join_strings(&sorted, ", ");
    let mut message = "Unknown config field(s): ".to_owned();
    message.append(joined.as_str());
    assert(message@ == unknown_fields_text(strings_view(sorted@)));
    Some(message)
}

/// Configuration files of a directory listing: the paths whose file names
/// are YAML configuration file names, distinct and in order.
pub fn config_file_paths(paths: &Vec<String>, file_names: &Vec<String>) -> (selected: Vec<String>)
    requires
        paths@.len() == file_names@.len(),
    ensures
        strictly_sorted(strings_view(selected@)),
        forall|x: Seq<char>| #[trigger]
            strings_view(selected@).contains(x) <==> exists|i: int|
                0 <= i < paths@.len() && paths@[i]@ == x && config_file_name(
                    #[trigger] file_names@[i]@,
                ),
{
    let mut chosen: Vec<String> = Vec::new();
    let mut i: usize = 0;
    while i < paths.len()
        invariant
            paths@.len() == file_names@.len(),
            i <= paths@.len(),
            forall|x: Seq<char>| #[trigger]
                strings_view(chosen@).contains(x) <==> exists|j: int|
                    0 <= j < i && paths@[j]@ == x && config_file_name(#[trigger] file_names@[j]@),
        decreases paths@.len() - i,
    {
        if is_config_file(file_names[i].as_str()) {
            let ghost before = strings_view(chosen@);
            chosen.push(paths[i].clone());
            proof {
                assert(strings_view(chosen@) =~= before.push(paths@[i as int]@));
                assert forall|x: Seq<char>| #[trigger]
                    strings_view(chosen@).contains(x) <==> exists|j: int|
                        0 <= j < i + 1 && paths@[j]@ == x && config_file_name(
                            #[trigger] file_names@[j]@,
                        ) by {
                    if strings_view(chosen@).contains(x) && !before.contains(x) {
                        assert(x == paths@[i as int]@);
                    }
                    if exists|j: int|
                        0 <= j < i + 1 && paths@[j]@ == x && config_file_name(
                            #[trigger] file_names@[j]@,
                        ) {
                        let j = choose|j: int|
                            0 <= j < i + 1 && paths@[j]@ == x && config_file_name(
                                #[trigger] file_names@[j]@,
                            );
                        if j == i {
                            assert(strings_view(chosen@)[before.len() as int] == x);
                        } else {
                            assert(before.contains(x));
                            let w = choose|w: int| 0 <= w < before.len() && before[w] == x;
                            assert(strings_view(chosen@)[w] == x);
                        }
                    }
                }
            }
        }
        i = i + 1;
    }
    sorted_unique(&chosen)
}

} // verus!
