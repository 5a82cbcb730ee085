use akuna_core::chunking::tree::{chunk_content, chunk_tree};
use akuna_core::chunking::{chunk_text, chunk_with_delimiters, next_char_boundary, ChunkingConfig};
use akuna_core::syntax::{
    code_part_ranges, code_part_ranges_of_tree, language_for_extension, syntax_tree, Grammar,
    SyntaxNode, SyntaxTree,
};

fn config(target: Option<usize>, delimiters: Option<&[u8]>) -> ChunkingConfig {
    let mut config = ChunkingConfig::default();
    config.target_size = target;
    config.delimiters = delimiters.map(|d| d.to_vec());
    config
}

#[test]
fn delimiter_chunks_split_after_last_delimiter() {
    let cfg = config(Some(4), Some(b"."));
    assert_eq!(chunk_text(Some(&cfg), "aa.bb.cc", None), vec!["aa.", "bb.", "cc"]);
}

#[test]
fn chunks_concatenate_to_content() {
    let text = "Grüße aus Köln. Ein zweiter Satz? Noch einer.\nUnd ein Absatz mit ünïcödé.";
    for target in [1usize, 2, 3, 5, 8, 13, 4096] {
        let cfg = config(Some(target), None);
        let chunks = chunk_text(Some(&cfg), text, None);
        assert_eq!(chunks.concat(), text);
        assert!(chunks.iter().all(|chunk| !chunk.is_empty()));
    }
    assert_eq!(chunk_text(None, text, None), vec![text]);
    assert!(chunk_text(None, "", None).is_empty());
}

#[test]
fn zero_target_size_falls_back_to_default() {
    let cfg = config(Some(0), None);
    assert_eq!(chunk_text(Some(&cfg), "short text", None), vec!["short text"]);
}

#[test]
fn delimiters_by_file_type_take_precedence() {
    let mut cfg = config(Some(4), Some(b"."));
    cfg.delimiters_by_ft = vec![("txt".to_owned(), b",".to_vec())];
    assert_eq!(chunk_text(Some(&cfg), "aa,bb,cc", Some("txt")), vec!["aa,", "bb,", "cc"]);
    assert_eq!(chunk_text(Some(&cfg), "aa.bb.cc", Some("md2")), vec!["aa.", "bb.", "cc"]);
}

#[test]
fn chunk_ends_move_to_char_boundaries() {
    assert_eq!(next_char_boundary("aé", 2), 3);
    assert_eq!(next_char_boundary("aé", 1), 1);
    assert_eq!(next_char_boundary("aé", 10), 3);
    let chunks = chunk_with_delimiters("ééé", Some(b"x"), 1);
    assert_eq!(chunks.concat(), "ééé");
    assert!(chunks.iter().all(|chunk| !chunk.is_empty()));
}

#[test]
fn grammar_chunks_follow_syntax_nodes() {
    let text = "fn a() {}\nfn b() {}\n";
    let cfg = config(Some(12), None);
    assert_eq!(chunk_text(Some(&cfg), text, Some("rs")), vec!["fn a() {}", "\nfn b() {}\n"]);
    let cfg = config(Some(4096), None);
    assert_eq!(chunk_text(Some(&cfg), text, Some("rs")), vec![text]);
    assert!(chunk_content(text, None, 12, None).is_none());
    assert!(chunk_content(text, None, 12, Some("unknown")).is_none());
}

fn leaf(kind: &str, start: usize, end: usize) -> SyntaxNode {
    SyntaxNode { kind: kind.to_owned(), named: true, start, end, children: Vec::new() }
}

#[test]
fn tree_chunks_group_ranges_up_to_target() {
    let content = "aaaa bbbb cccc dddd";
    let root = SyntaxNode {
        kind: "program".to_owned(),
        named: true,
        start: 0,
        end: 19,
        children: vec![leaf("x", 0, 4), leaf("x", 5, 9), leaf("x", 10, 14), leaf("x", 15, 19)],
    };
    let tree = SyntaxTree { root, has_error: false };
    let chunks = chunk_tree(content, &tree, None, 10).expect("chunks");
    assert_eq!(chunks, vec!["aaaa bbbb", " cccc dddd"]);
    assert_eq!(chunks.concat(), content);
    let broken = SyntaxTree { root: leaf("x", 0, 19), has_error: true };
    assert!(chunk_tree(content, &broken, None, 10).is_none());
    let out_of_order = SyntaxTree {
        root: SyntaxNode {
            kind: "program".to_owned(),
            named: true,
            start: 0,
            end: 19,
            children: vec![leaf("x", 10, 14), leaf("x", 0, 4)],
        },
        has_error: false,
    };
    assert!(chunk_tree(content, &out_of_order, None, 10).is_none());
}

#[test]
fn extensions_select_grammars() {
    assert_eq!(language_for_extension("rs"), Some(Grammar::Rust));
    assert_eq!(language_for_extension("yml"), Some(Grammar::Yaml));
    assert_eq!(language_for_extension("tsx"), Some(Grammar::Tsx));
    assert_eq!(language_for_extension("RS"), None);
    assert_eq!(language_for_extension(""), None);
}

#[test]
fn parsed_tree_holds_named_nodes() {
    let tree = syntax_tree("fn a() {}", Grammar::Rust).expect("tree");
    assert!(!tree.has_error);
    assert_eq!(tree.root.kind, "source_file");
    assert_eq!(tree.root.children.len(), 1);
    assert_eq!(tree.root.children[0].kind, "function_item");
    assert_eq!((tree.root.children[0].start, tree.root.children[0].end), (0, 9));
    let broken = syntax_tree("fn (", Grammar::Rust).expect("tree");
    assert!(broken.has_error);
}

#[test]
fn code_parts_stop_at_functions() {
    let text = "impl A {\n    fn b() {}\n    fn c() {}\n}\n";
    let ranges = code_part_ranges(text, Some("rs")).expect("ranges");
    let kinds: Vec<&str> = ranges.iter().map(|range| range.kind.as_str()).collect();
    assert_eq!(kinds, vec!["function_item", "function_item"]);
    assert_eq!(&text[ranges[0].start..ranges[0].end], "fn b() {}");
    let tree = SyntaxTree {
        root: SyntaxNode {
            kind: "source_file".to_owned(),
            named: true,
            start: 0,
            end: 10,
            children: vec![leaf("struct_item", 0, 10)],
        },
        has_error: false,
    };
    let ranges = code_part_ranges_of_tree(&tree).expect("ranges");
    assert_eq!(ranges.len(), 1);
    assert_eq!(ranges[0].kind, "struct_item");
    assert!(code_part_ranges("fn a() {}", None).is_none());
}

#[test]
fn equivalent_settings_give_equal_chunks() {
    let text = "alpha. beta. gamma. delta. epsilon.";
    let mut zero = ChunkingConfig::default();
    zero.target_size = Some(0);
    let unset = ChunkingConfig::default();
    assert_eq!(chunk_text(Some(&zero), text, None), chunk_text(Some(&unset), text, None));
    assert_eq!(chunk_text(None, text, Some("md")), chunk_text(Some(&unset), text, Some("md")));

    let mut by_type = ChunkingConfig::default();
    by_type.target_size = Some(8);
    by_type.delimiters = Some(b";".to_vec());
    by_type.delimiters_by_ft = vec![("txt".to_owned(), b".".to_vec())];
    let mut resolved = ChunkingConfig::default();
    resolved.target_size = Some(8);
    resolved.delimiters = Some(b".".to_vec());
    assert_eq!(chunk_text(Some(&by_type), text, Some("txt")), chunk_text(Some(&resolved), text, Some("txt")));
}
