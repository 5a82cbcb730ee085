//! Paths of the shared test corpus.
use vstd::prelude::*;
use vstd::string::*;

use crate::text::{ends_with, starts_with};

verus! {

/// Path `part` joined onto `base` as `PathBuf::join` does on Unix: an
/// absolute `part` replaces `base`; otherwise a `/` is put between them
/// unless `base` is empty or already ends with one.
pub open spec fn joined_path(base: Seq<char>, part: Seq<char>) -> Seq<char> {
    if "/"@.is_prefix_of(part) {
        part
    } else if base.len() == 0 || "/"@.is_suffix_of(base) {
        base + part
    } else {
        base + "/"@ + part
    }
}

/// Joins a path component onto a path.
pub fn path_join(base: &str, part: &str) -> (path: String)
    ensures
        path@ == joined_path(base@, part@),
{
    if starts_with(part, "/") {
        return part.to_owned();
    }
    let mut path = base.to_owned();
    if !(base.unicode_len() == 0 || ends_with(base, "/")) {
        path.append("/");
    }
    path.append(part);
    path
}

/// Root of the shared test corpus.
pub open spec fn corpus_path() -> Seq<char> {
    "/Users/smissingham/Projects/akunasoftware/test-corpus/"@
}

/// Returns the path to the shared test corpus directory.
pub fn get_corpus_path() -> (path: String)
    ensures
        path@ == corpus_path(),
{
    "/Users/smissingham/Projects/akunasoftware/test-corpus/".to_owned()
}

/// Returns the path of a named fixture under the corpus fixtures directory.
pub fn get_extraction_fixture(file_path: &str) -> (path: String)
    ensures
        path@ == joined_path(joined_path(joined_path(corpus_path(), "content"@), "fixtures"@), file_path@),
{
    let corpus = get_corpus_path();
    let content = path_join(corpus.as_str(), "content");
    let fixtures = path_join(content.as_str(), "fixtures");
    path_join(fixtures.as_str(), file_path)
}

/// Returns the root directory of all embedding bench and test fixtures.
pub fn get_embedding_corpus_root() -> (path: String)
    ensures
        path@ == joined_path(corpus_path(), "content"@),
{
    let corpus = get_corpus_path();
    path_join(corpus.as_str(), "content")
}

} // verus!
