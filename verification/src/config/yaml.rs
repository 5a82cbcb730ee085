//! YAML configuration values and how configuration files merge: later files
//! override earlier ones key by key, recursively through mappings.
use vstd::prelude::*;
use vstd::string::*;

use crate::text::str_eq;

verus! {

broadcast use vstd::std_specs::vec::axiom_vec_index_decreases;

/// YAML value as configuration files hold it. Mapping keys are held as
/// their string form; numbers as their text.
pub enum YamlValue {
    Null,
    Bool(bool),
    Number(String),
    String(String),
    Sequence(Vec<YamlValue>),
    Mapping(Vec<(String, YamlValue)>),
    Tagged(String, Box<YamlValue>),
}

/// Mathematical form of a YAML value.
pub enum YamlTree {
    Null,
    Bool(bool),
    Number(Seq<char>),
    Str(Seq<char>),
    Sequence(Seq<YamlTree>),
    Mapping(Seq<(Seq<char>, YamlTree)>),
    Tagged(Seq<char>, Box<YamlTree>),
}

/// Mathematical form of a value.
pub open spec fn yaml_tree(value: YamlValue) -> YamlTree
    decreases value, 1int, 0int,
{
    match value {
        YamlValue::Null => YamlTree::Null,
        YamlValue::Bool(b) => YamlTree::Bool(b),
        YamlValue::Number(n) => YamlTree::Number(n@),
        YamlValue::String(s) => YamlTree::Str(s@),
        YamlValue::Sequence(items) => YamlTree::Sequence(items_tree(value, items.len() as int)),
        YamlValue::Mapping(entries) => YamlTree::Mapping(entries_tree(value, entries.len() as int)),
        YamlValue::Tagged(tag, inner) => YamlTree::Tagged(tag@, Box::new(yaml_tree(*inner))),
    }
}

/// Mathematical forms of the first `k` items of a sequence value.
pub open spec fn items_tree(value: YamlValue, k: int) -> Seq<YamlTree>
    decreases value, 0int, k,
{
    match value {
        YamlValue::Sequence(items) => if k <= 0 || k > items.len() {
            seq![]
        } else {
            items_tree(value, k - 1).push(yaml_tree(items[k - 1]))
        },
        _ => seq![],
    }
}

/// Mathematical forms of the first `k` entries of a mapping value.
pub open spec fn entries_tree(value: YamlValue, k: int) -> Seq<(Seq<char>, YamlTree)>
    decreases value, 0int, k,
{
    match value {
        YamlValue::Mapping(entries) => if k <= 0 || k > entries.len() {
            seq![]
        } else {
            entries_tree(value, k - 1).push((entries[k - 1].0@, yaml_tree(entries[k - 1].1)))
        },
        _ => seq![],
    }
}

/// Index of the first entry with the key, if any.
pub open spec fn key_index(entries: Seq<(Seq<char>, YamlTree)>, key: Seq<char>, from: int) -> Option<
    int,
>
    decreases entries.len() - from,
{
    if from < 0 || from >= entries.len() {
        None
    } else if entries[from].0 == key {
        Some(from)
    } else {
        key_index(entries, key, from + 1)
    }
}

/// Entries with the entry at `i` replaced by the last one and the last one
/// dropped, as removing from an insertion-ordered map does.
pub open spec fn swap_removed<A>(entries: Seq<A>, i: int) -> Seq<A> {
    entries.update(i, entries.last()).drop_last()
}

/// Merge of two values: a null next value keeps the base, a null base takes
/// the next value, two mappings merge entry by entry, and otherwise the next
/// value wins.
pub open spec fn merge_tree(base: YamlTree, next: YamlTree) -> YamlTree
    decreases next, 1int, 0int,
{
    match next {
        YamlTree::Null => base,
        YamlTree::Mapping(n) => match base {
            YamlTree::Mapping(b) => YamlTree::Mapping(merge_entries(b, next, n.len() as int)),
            _ => next,
        },
        _ => next,
    }
}

/// Base entries after merging the first `k` entries of the next mapping: an
/// entry whose key the base has replaces that base entry, moved to the end,
/// with the two values merged; a new key is added at the end.
pub open spec fn merge_entries(base: Seq<(Seq<char>, YamlTree)>, next: YamlTree, k: int) -> Seq<
    (Seq<char>, YamlTree),
>
    decreases next, 0int, k,
{
    match next {
        YamlTree::Mapping(n) => if k <= 0 || k > n.len() {
            base
        } else {
            let acc = merge_entries(base, next, k - 1);
            let key = n[k - 1].0;
            let value = n[k - 1].1;
            match key_index(acc, key, 0) {
                Some(i) => swap_removed(acc, i).push((key, merge_tree(acc[i].1, value))),
                None => acc.push((key, value)),
            }
        },
        _ => base,
    }
}

/// Merge of a list of values into one, starting from null.
pub open spec fn merge_trees(values: Seq<YamlTree>) -> YamlTree
    decreases values.len(),
{
    if values.len() == 0 {
        YamlTree::Null
    } else {
        merge_tree(merge_trees(values.drop_last()), values.last())
    }
}


/// Mathematical forms of mapping entries.
pub open spec fn entries_view(entries: Seq<(String, YamlValue)>) -> Seq<(Seq<char>, YamlTree)> {
    entries.map_values(|e: (String, YamlValue)| (e.0@, yaml_tree(e.1)))
}

/// The entries of a mapping value have the forms of its entries.
proof fn lemma_entries_tree(value: YamlValue, k: int)
    requires
        value matches YamlValue::Mapping(entries) && 0 <= k <= entries.len(),
    ensures
        value matches YamlValue::Mapping(entries) && entries_tree(value, k) == entries_view(
            entries@.subrange(0, k),
        ),
    decreases k,
{
    if let YamlValue::Mapping(entries) = value {
        if k > 0 {
            lemma_entries_tree(value, k - 1);
            assert(entries_view(entries@.subrange(0, k)) =~= entries_view(
                entries@.subrange(0, k - 1),
            ).push((entries@[k - 1].0@, yaml_tree(entries@[k - 1].1))));
        } else {
            assert(entries_view(entries@.subrange(0, 0)) =~= seq![]);
        }
    }
}

/// Index of the first entry with the key, searching from `from`.
fn find_key(entries: &Vec<(String, YamlValue)>, key: &str) -> (index: Option<usize>)
    ensures
        match index {
            Some(i) => key_index(entries_view(entries@), key@, 0) == Some(i as int) && i
                < entries@.len(),
            None => key_index(entries_view(entries@), key@, 0) is None,
        },
{
    let ghost view = entries_view(entries@);
    let mut i: usize = 0;
    while i < entries.len()
        invariant
            i <= entries@.len(),
            view == entries_view(entries@),
            key_index(view, key@, 0) == key_index(view, key@, i as int),
        decreases entries@.len() - i,
    {
        if str_eq(entries[i].0.as_str(), key) {
            return Some(i);
        }
        i = i + 1;
    }
    None
}

/// Merges a configuration value over a base value.
pub fn merge_yaml_value(base: YamlValue, next: YamlValue) -> (merged: YamlValue)
    ensures
        yaml_tree(merged) == merge_tree(yaml_tree(base), yaml_tree(next)),
    decreases next,
{
    let ghost orig = next;
    match next {
        YamlValue::Null => base,
        YamlValue::Mapping(n) => match base {
            YamlValue::Mapping(b) => {
                let ghost n0 = n;
                let ghost b0 = b;
                proof {
                    lemma_entries_tree(orig, n0@.len() as int);
                    lemma_entries_tree(YamlValue::Mapping(b0), b0@.len() as int);
                    assert(n0@.subrange(0, n0@.len() as int) =~= n0@);
                    assert(b0@.subrange(0, b0@.len() as int) =~= b0@);
                }
                let mut acc = b;
                let mut rest = n;
                let mut j: usize = 0;
                while rest.len() > 0
                    invariant
                        orig == next,
                        orig == YamlValue::Mapping(n0),
                        j <= n0@.len(),
                        rest@ == n0@.subrange(j as int, n0@.len() as int),
                        yaml_tree(orig) == YamlTree::Mapping(entries_view(n0@)),
                        entries_view(acc@) == merge_entries(
                            entries_view(b0@),
                            yaml_tree(orig),
                            j as int,
                        ),
                    decreases rest@.len(),
                {
                    let (key, value) = rest.remove(0);
                    assert((key, value) == n0@[j as int]);
                    let ghost before = acc@;
                    proof {
                        assert(decreases_to!(orig => n0));
                        assert(decreases_to!(n0 => n0[j as int]));
                        assert(decreases_to!(orig => value));
                    }
                    match find_key(&acc, key.as_str()) {
                        Some(i) => {
                            let (_, existing) = acc.swap_remove(i);
                            let merged = merge_yaml_value(existing, value);
                            acc.push((key, merged));
                            assert(entries_view(acc@) =~= swap_removed(entries_view(before), i as int).push(
                                (n0@[j as int].0@, merge_tree(entries_view(before)[i as int].1, yaml_tree(n0@[j as int].1))),
                            ));
                        },
                        None => {
                            acc.push((key, value));
                            assert(entries_view(acc@) =~= entries_view(before).push(
                                (n0@[j as int].0@, yaml_tree(n0@[j as int].1)),
                            ));
                        },
                    }
                    assert(entries_view(n0@)[j as int] == (n0@[j as int].0@, yaml_tree(n0@[j as int].1)));
                    j = j + 1;
                }
                let result = YamlValue::Mapping(acc);
                proof {
                    lemma_entries_tree(result, acc@.len() as int);
                    assert(acc@.subrange(0, acc@.len() as int) =~= acc@);
                    assert(yaml_tree(base) == YamlTree::Mapping(entries_view(b0@)));
                }
                result
            },
            _ => YamlValue::Mapping(n),
        },
        other => other,
    }
}

/// Merges configuration values in order, starting from null.
pub fn merge_yaml_values(values: Vec<YamlValue>) -> (merged: YamlValue)
    ensures
        yaml_tree(merged) == merge_trees(values@.map_values(|v: YamlValue| yaml_tree(v))),
{
    let ghost all = values@;
    let total = values.len();
    let mut merged = YamlValue::Null;
    let mut rest = values;
    let mut k: usize = 0;
    while rest.len() > 0
        invariant
            k <= all.len(),
            total == all.len(),
            rest@ == all.subrange(k as int, all.len() as int),
            yaml_tree(merged) == merge_trees(all.subrange(0, k as int).map_values(|v: YamlValue| yaml_tree(v))),
        decreases rest@.len(),
    {
        let value = rest.remove(0);
        assert(value == all[k as int]);
        merged = merge_yaml_value(merged, value);
        proof {
            let next = all.subrange(0, k as int + 1).map_values(|v: YamlValue| yaml_tree(v));
            assert(next.drop_last() =~= all.subrange(0, k as int).map_values(|v: YamlValue| yaml_tree(v)));
        }
        k = k + 1;
    }
    assert(all.subrange(0, k as int) =~= all);
    merged
}


/// Whether no key occurs twice among the entries, as in a YAML mapping.
pub open spec fn unique_keys(entries: Seq<(Seq<char>, YamlTree)>) -> bool {
    forall|i: int, j: int| 0 <= i < j < entries.len() ==> #[trigger] entries[i].0 != #[trigger] entries[j].0
}

/// Value of a key among mapping entries, if it has one.
pub open spec fn lookup(entries: Seq<(Seq<char>, YamlTree)>, key: Seq<char>) -> Option<YamlTree> {
    match key_index(entries, key, 0) {
        Some(i) => Some(entries[i].1),
        None => None,
    }
}

/// Value a key has after merging: the next value merged over the base value
/// when the next mapping has the key, else the base value.
pub open spec fn merged_lookup(
    base: Seq<(Seq<char>, YamlTree)>,
    next: Seq<(Seq<char>, YamlTree)>,
    key: Seq<char>,
) -> Option<YamlTree> {
    match lookup(next, key) {
        Some(nv) => Some(
            match lookup(base, key) {
                Some(bv) => merge_tree(bv, nv),
                None => nv,
            },
        ),
        None => lookup(base, key),
    }
}

/// The first index of a key is where the key is and no earlier entry has it.
proof fn lemma_key_index(entries: Seq<(Seq<char>, YamlTree)>, key: Seq<char>, from: int)
    requires
        0 <= from,
    ensures
        key_index(entries, key, from) matches Some(i) ==> from <= i < entries.len() && entries[i].0
            == key && forall|j: int| from <= j < i ==> entries[j].0 != key,
        key_index(entries, key, from) is None ==> forall|j: int|
            from <= j < entries.len() ==> entries[j].0 != key,
    decreases entries.len() - from,
{
    if from < entries.len() && entries[from].0 != key {
        lemma_key_index(entries, key, from + 1);
    }
}

/// With unique keys, a key's value is that of the entry holding it.
proof fn lemma_lookup_unique(entries: Seq<(Seq<char>, YamlTree)>, key: Seq<char>, i: int)
    requires
        unique_keys(entries),
        0 <= i < entries.len(),
        entries[i].0 == key,
    ensures
        lookup(entries, key) == Some(entries[i].1),
{
    lemma_key_index(entries, key, 0);
    if let Some(k) = key_index(entries, key, 0) {
        if k != i {
            if k < i {
                assert(entries[k].0 != entries[i].0);
            } else {
                assert(entries[i].0 != entries[k].0);
            }
        }
    }
}

/// A key no entry holds has no value.
proof fn lemma_lookup_absent(entries: Seq<(Seq<char>, YamlTree)>, key: Seq<char>)
    requires
        forall|j: int| 0 <= j < entries.len() ==> entries[j].0 != key,
    ensures
        lookup(entries, key) is None,
{
    lemma_key_index(entries, key, 0);
}

/// After merging the first `k` next entries, keys stay unique and each key
/// has its merged value as far as those entries go.
proof fn lemma_merge_entries_lookup(
    base: Seq<(Seq<char>, YamlTree)>,
    n: Seq<(Seq<char>, YamlTree)>,
    k: int,
    key: Seq<char>,
)
    requires
        unique_keys(base),
        unique_keys(n),
        0 <= k <= n.len(),
    ensures
        unique_keys(merge_entries(base, YamlTree::Mapping(n), k)),
        lookup(merge_entries(base, YamlTree::Mapping(n), k), key) == merged_lookup(
            base,
            n.subrange(0, k),
            key,
        ),
    decreases k,
{
    let next = YamlTree::Mapping(n);
    if k == 0 {
        lemma_lookup_absent(n.subrange(0, 0), key);
    } else {
        lemma_merge_entries_lookup(base, n, k - 1, key);
        let acc = merge_entries(base, next, k - 1);
        let nk = n[k - 1].0;
        let nv = n[k - 1].1;
        let prefix = n.subrange(0, k);
        let before = n.subrange(0, k - 1);
        assert(unique_keys(prefix));
        assert(unique_keys(before));
        // the key of entry k-1 is not among the earlier next entries
        assert forall|j: int| 0 <= j < before.len() implies before[j].0 != nk by {
            assert(n[j].0 != n[k - 1].0);
        }
        lemma_key_index(acc, nk, 0);
        // facts about the looked-up key in the two prefixes
        if key == nk {
            lemma_lookup_unique(prefix, key, k - 1);
            lemma_lookup_absent(before, key);
        } else {
            lemma_key_index(prefix, key, 0);
            lemma_key_index(before, key, 0);
            if lookup(before, key) is Some {
                let i = key_index(before, key, 0)->0;
                lemma_lookup_unique(prefix, key, i);
            } else {
                assert forall|j: int| 0 <= j < prefix.len() implies prefix[j].0 != key by {
                    if j < k - 1 {
                        assert(before[j] == prefix[j]);
                    }
                }
                lemma_lookup_absent(prefix, key);
            }
        }
        match key_index(acc, nk, 0) {
            Some(i) => {
                let removed = swap_removed(acc, i);
                let result = removed.push((nk, merge_tree(acc[i].1, nv)));
                assert(result == merge_entries(base, next, k));
                assert forall|a: int, b: int| 0 <= a < b < result.len() implies #[trigger] result[a].0
                    != #[trigger] result[b].0 by {
                    let last = acc.len() - 1;
                    let ia = if a == i {
                        last
                    } else {
                        a
                    };
                    if b == result.len() - 1 {
                        assert(result[b].0 == nk);
                        assert(acc[ia].0 != acc[i].0 || ia == i);
                        if ia == i {
                            assert(a == i && last == i);
                            assert(false);
                        }
                    } else {
                        let ib = if b == i {
                            last
                        } else {
                            b
                        };
                        assert(ia != ib);
                        if ia < ib {
                            assert(acc[ia].0 != acc[ib].0);
                        } else {
                            assert(acc[ib].0 != acc[ia].0);
                        }
                    }
                }
                if key == nk {
                    lemma_lookup_unique(result, key, result.len() - 1);
                    lemma_lookup_unique(acc, key, i);
                } else {
                    lemma_key_index(acc, key, 0);
                    match key_index(acc, key, 0) {
                        Some(p) => {
                            let q = if p == acc.len() - 1 {
                                i
                            } else {
                                p
                            };
                            assert(p != i);
                            assert(result[q] == acc[p]);
                            lemma_lookup_unique(result, key, q);
                        },
                        None => {
                            assert forall|j: int| 0 <= j < result.len() implies result[j].0 != key by {
                                if j < removed.len() {
                                    if j == i {
                                        assert(result[j] == acc[acc.len() - 1]);
                                    } else {
                                        assert(result[j] == acc[j]);
                                    }
                                }
                            }
                            lemma_lookup_absent(result, key);
                        },
                    }
                }
            },
            None => {
                let result = acc.push((nk, nv));
                assert(result == merge_entries(base, next, k));
                assert forall|a: int, b: int| 0 <= a < b < result.len() implies #[trigger] result[a].0
                    != #[trigger] result[b].0 by {
                    if b == result.len() - 1 {
                        assert(acc[a].0 != nk);
                    } else {
                        assert(acc[a].0 != acc[b].0);
                    }
                }
                if key == nk {
                    lemma_lookup_unique(result, key, result.len() - 1);
                    lemma_lookup_absent(acc, key);
                } else {
                    lemma_key_index(acc, key, 0);
                    match key_index(acc, key, 0) {
                        Some(p) => {
                            assert(result[p] == acc[p]);
                            lemma_lookup_unique(result, key, p);
                        },
                        None => {
                            assert forall|j: int| 0 <= j < result.len() implies result[j].0 != key by {
                                if j < acc.len() {
                                    assert(result[j] == acc[j]);
                                }
                            }
                            lemma_lookup_absent(result, key);
                        },
                    }
                }
            },
        }
    }
}

/// Merging a null value over a value keeps it, and merging a value over null
/// gives the value: a configuration file without content changes nothing.
pub proof fn lemma_merge_null_identity(value: YamlTree)
    ensures
        merge_tree(value, YamlTree::Null) == value,
        merge_tree(YamlTree::Null, value) == value,
{
}

/// A single configuration file merges to its own value.
pub proof fn lemma_merge_single(value: YamlTree)
    ensures
        merge_trees(seq![value]) == value,
{
    assert(seq![value].drop_last() =~= Seq::<YamlTree>::empty());
    assert(merge_trees(Seq::<YamlTree>::empty()) == YamlTree::Null);
    assert(seq![value].last() == value);
    assert(merge_trees(seq![value]) == merge_tree(YamlTree::Null, value));
}

/// Merging two mappings with unique keys keeps keys unique and gives each key
/// the next file's value merged over the base file's value when the next file
/// has the key, and the base file's value otherwise: later files override
/// earlier ones key by key, recursively.
pub proof fn lemma_merge_mapping_lookup(
    base: Seq<(Seq<char>, YamlTree)>,
    next: Seq<(Seq<char>, YamlTree)>,
    key: Seq<char>,
)
    requires
        unique_keys(base),
        unique_keys(next),
    ensures
        merge_tree(YamlTree::Mapping(base), YamlTree::Mapping(next)) matches YamlTree::Mapping(m)
            && unique_keys(m) && lookup(m, key) == merged_lookup(base, next, key),
{
    lemma_merge_entries_lookup(base, next, next.len() as int, key);
    assert(next.subrange(0, next.len() as int) =~= next);
}

/// Merging two mapping files keeps a key the later file lacks at the earlier
/// file's value, and gives a key only the later file has the later value.
pub proof fn lemma_merge_keeps_and_adds(
    base: Seq<(Seq<char>, YamlTree)>,
    next: Seq<(Seq<char>, YamlTree)>,
    key: Seq<char>,
)
    requires
        unique_keys(base),
        unique_keys(next),
    ensures
        merge_tree(YamlTree::Mapping(base), YamlTree::Mapping(next)) matches YamlTree::Mapping(m)
            && (lookup(next, key) is None ==> lookup(m, key) == lookup(base, key)) && (lookup(
            base,
            key,
        ) is None ==> lookup(m, key) == lookup(next, key)),
{
    lemma_merge_mapping_lookup(base, next, key);
}

/// A later value that is neither null nor a mapping (a scalar, a sequence or
/// a tagged value) replaces whatever an earlier file had there.
pub proof fn lemma_merge_scalar_overrides(base: YamlTree, next: YamlTree)
    requires
        !(next is Null),
        !(next is Mapping),
    ensures
        merge_tree(base, next) == next,
{
}

/// Where the later of two mapping files sets a key to a value that is neither
/// null nor a mapping, the merged file has exactly that value for the key,
/// whatever the earlier file had: later files override earlier ones.
pub proof fn lemma_later_scalar_wins(
    base: Seq<(Seq<char>, YamlTree)>,
    next: Seq<(Seq<char>, YamlTree)>,
    key: Seq<char>,
    value: YamlTree,
)
    requires
        unique_keys(base),
        unique_keys(next),
        lookup(next, key) == Some(value),
        !(value is Null),
        !(value is Mapping),
    ensures
        merge_tree(YamlTree::Mapping(base), YamlTree::Mapping(next)) matches YamlTree::Mapping(m)
            && lookup(m, key) == Some(value),
{
    lemma_merge_mapping_lookup(base, next, key);
    match lookup(base, key) {
        Some(bv) => lemma_merge_scalar_overrides(bv, value),
        None => {},
    }
}

} // verus!
