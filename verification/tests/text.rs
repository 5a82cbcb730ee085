use akuna_core::reranking::JinaV2RerankerVariant;
use akuna_core::testing::{get_corpus_path, get_embedding_corpus_root, get_extraction_fixture, path_join};
use akuna_core::text::{
    byte_slice, contains, ends_with, find_bytes, is_whitespace, join_strings, join_strs, replace_all, split_ascii,
    split_newlines, split_once_before, starts_with, str_eq, strip_prefix, strip_suffix, trim, trim_start,
};
use akuna_core::detection::MagikaInferenceError;

#[test]
fn trimming_removes_unicode_white_space() {
    assert_eq!(trim("  a b \t\n"), "a b");
    assert_eq!(trim("\u{3000}x\u{a0}"), "x");
    assert_eq!(trim("   "), "");
    assert_eq!(trim(""), "");
}

#[test]
fn string_searches() {
    assert!(starts_with("function", "func"));
    assert!(!starts_with("fn", "func"));
    assert!(ends_with("struct_item", "item"));
    assert!(contains("method_definition", "method"));
    assert!(!contains("class", "method"));
    assert!(contains("abc", ""));
}

#[test]
fn replacement_is_left_to_right() {
    assert_eq!(replace_all("aaa", "aa", "b"), "ba");
    assert_eq!(replace_all("x''y''", "''", "'"), "x'y'");
}

#[test]
fn newline_split_keeps_empty_pieces() {
    assert_eq!(split_newlines("a\n\nb\n"), vec!["a", "", "b", ""]);
    assert_eq!(split_newlines(""), vec![""]);
    assert_eq!(join_strings(&vec!["a".to_owned(), "b".to_owned()], ", "), "a, b");
}

#[test]
fn corpus_paths_join_components() {
    assert_eq!(get_corpus_path(), "/Users/smissingham/Projects/akunasoftware/test-corpus/");
    assert_eq!(
        get_extraction_fixture("text.txt"),
        "/Users/smissingham/Projects/akunasoftware/test-corpus/content/fixtures/text.txt"
    );
    assert_eq!(get_embedding_corpus_root(), "/Users/smissingham/Projects/akunasoftware/test-corpus/content");
    assert_eq!(path_join("a", "/abs"), "/abs");
    assert_eq!(path_join("", "x"), "x");
    assert_eq!(path_join("a/", "x"), "a/x");
}

#[test]
fn detection_errors_have_messages() {
    assert_eq!(MagikaInferenceError::Runtime("boom".to_owned()).message(), "inference runtime error: boom");
}

#[test]
fn reranker_repo() {
    assert_eq!(
        JinaV2RerankerVariant::BaseMultilingual.repo_id(),
        "jinaai/jina-reranker-v2-base-multilingual"
    );
}

#[test]
fn string_helpers_follow_std() {
    assert_eq!(byte_slice("héllo", 1, 3), "é");
    assert_eq!(byte_slice("abc", 3, 3), "");
    assert!(str_eq("same", "same"));
    assert!(!str_eq("same", "Same"));
    assert!(is_whitespace('\u{2003}'));
    assert!(is_whitespace('\n'));
    assert!(!is_whitespace('x'));
    assert_eq!(split_ascii("a,b,,c", b','), vec!["a", "b", "", "c"]);
    assert_eq!(split_ascii("", b','), vec![""]);
    assert_eq!(find_bytes(b"abcabc", b"bc", 0), Some(1));
    assert_eq!(find_bytes(b"abcabc", b"bc", 2), Some(4));
    assert_eq!(find_bytes(b"abc", b"x", 0), None);
    assert_eq!(join_strs(&["a", "b", "c"], "::"), "a::b::c");
    assert_eq!(join_strs(&[], "::"), "");
    assert_eq!(trim_start("  \tkeep  "), "keep  ");
    assert_eq!(strip_prefix("prefix-rest", "prefix-"), Some("rest"));
    assert_eq!(strip_prefix("rest", "prefix-"), None);
    assert_eq!(strip_suffix("name.yaml", ".yaml"), Some("name"));
    assert_eq!(strip_suffix("name.yml", ".yaml"), None);
    assert_eq!(split_once_before("key # comment # more", " #"), Some("key"));
    assert_eq!(split_once_before("plain", " #"), None);
}
