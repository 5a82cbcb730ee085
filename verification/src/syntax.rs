//! Grammar-aware syntax trees built with tree-sitter, held as plain values.
use vstd::prelude::*;
use vstd::string::*;

use crate::text::{contains, contains_seq, ends_with, str_eq};

verus! {

broadcast use vstd::std_specs::vec::axiom_vec_index_decreases;

/// Syntax node with the properties the chunking and extraction code reads:
/// its kind, whether it is named, its byte range and its named children.
pub struct SyntaxNode {
    /// Node kind reported by the grammar.
    pub kind: String,
    /// Whether the node is a named node.
    pub named: bool,
    /// Start byte offset.
    pub start: usize,
    /// End byte offset (exclusive).
    pub end: usize,
    /// Named children in source order.
    pub children: Vec<SyntaxNode>,
}

/// Parsed syntax tree.
pub struct SyntaxTree {
    /// Root node of the tree.
    pub root: SyntaxNode,
    /// Whether the root reports a syntax error anywhere in the tree.
    pub has_error: bool,
}

/// Grammars available for structured chunking and extraction.
#[derive(Debug, Clone, Copy, PartialEq, Eq)]
pub enum Grammar {
    Bash,
    C,
    Cpp,
    CSharp,
    Css,
    Dart,
    Go,
    Graphql,
    Hcl,
    Html,
    Java,
    Javascript,
    Json,
    Lua,
    Markdown,
    Php,
    Python,
    Ruby,
    Rust,
    Scala,
    Sql,
    Svelte,
    Swift,
    Typescript,
    Tsx,
    Yaml,
}

/// Grammar that a file extension (without leading dot) selects.
pub open spec fn spec_grammar_for_extension(ext: Seq<char>) -> Option<Grammar> {
    if ext == "bash"@ || ext == "sh"@ {
        Some(Grammar::Bash)
    } else if ext == "c"@ {
        Some(Grammar::C)
    } else if ext == "cpp"@ {
        Some(Grammar::Cpp)
    } else if ext == "cs"@ {
        Some(Grammar::CSharp)
    } else if ext == "css"@ {
        Some(Grammar::Css)
    } else if ext == "dart"@ {
        Some(Grammar::Dart)
    } else if ext == "go"@ {
        Some(Grammar::Go)
    } else if ext == "graphql"@ || ext == "gql"@ {
        Some(Grammar::Graphql)
    } else if ext == "hcl"@ || ext == "tf"@ || ext == "terraform"@ {
        Some(Grammar::Hcl)
    } else if ext == "html"@ {
        Some(Grammar::Html)
    } else if ext == "java"@ {
        Some(Grammar::Java)
    } else if ext == "js"@ || ext == "jsx"@ {
        Some(Grammar::Javascript)
    } else if ext == "json"@ {
        Some(Grammar::Json)
    } else if ext == "lua"@ {
        Some(Grammar::Lua)
    } else if ext == "md"@ || ext == "markdown"@ {
        Some(Grammar::Markdown)
    } else if ext == "php"@ {
        Some(Grammar::Php)
    } else if ext == "py"@ {
        Some(Grammar::Python)
    } else if ext == "rb"@ || ext == "ruby"@ {
        Some(Grammar::Ruby)
    } else if ext == "rs"@ {
        Some(Grammar::Rust)
    } else if ext == "scala"@ || ext == "sc"@ {
        Some(Grammar::Scala)
    } else if ext == "sql"@ {
        Some(Grammar::Sql)
    } else if ext == "svelte"@ {
        Some(Grammar::Svelte)
    } else if ext == "swift"@ {
        Some(Grammar::Swift)
    } else if ext == "ts"@ {
        Some(Grammar::Typescript)
    } else if ext == "tsx"@ {
        Some(Grammar::Tsx)
    } else if ext == "yaml"@ || ext == "yml"@ {
        Some(Grammar::Yaml)
    } else {
        None
    }
}

/// Maps a file extension to its grammar, if supported.
pub fn language_for_extension(file_extension: &str) -> (grammar: Option<Grammar>)
    ensures
        grammar == spec_grammar_for_extension(file_extension@),
{
    let e = file_extension;
    if str_eq(e, "bash") || str_eq(e, "sh") {
        Some(Grammar::Bash)
    } else if str_eq(e, "c") {
        Some(Grammar::C)
    } else if str_eq(e, "cpp") {
        Some(Grammar::Cpp)
    } else if str_eq(e, "cs") {
        Some(Grammar::CSharp)
    } else if str_eq(e, "css") {
        Some(Grammar::Css)
    } else if str_eq(e, "dart") {
        Some(Grammar::Dart)
    } else if str_eq(e, "go") {
        Some(Grammar::Go)
    } else if str_eq(e, "graphql") || str_eq(e, "gql") {
        Some(Grammar::Graphql)
    } else if str_eq(e, "hcl") || str_eq(e, "tf") || str_eq(e, "terraform") {
        Some(Grammar::Hcl)
    } else if str_eq(e, "html") {
        Some(Grammar::Html)
    } else if str_eq(e, "java") {
        Some(Grammar::Java)
    } else if str_eq(e, "js") || str_eq(e, "jsx") {
        Some(Grammar::Javascript)
    } else if str_eq(e, "json") {
        Some(Grammar::Json)
    } else if str_eq(e, "lua") {
        Some(Grammar::Lua)
    } else if str_eq(e, "md") || str_eq(e, "markdown") {
        Some(Grammar::Markdown)
    } else if str_eq(e, "php") {
        Some(Grammar::Php)
    } else if str_eq(e, "py") {
        Some(Grammar::Python)
    } else if str_eq(e, "rb") || str_eq(e, "ruby") {
        Some(Grammar::Ruby)
    } else if str_eq(e, "rs") {
        Some(Grammar::Rust)
    } else if str_eq(e, "scala") || str_eq(e, "sc") {
        Some(Grammar::Scala)
    } else if str_eq(e, "sql") {
        Some(Grammar::Sql)
    } else if str_eq(e, "svelte") {
        Some(Grammar::Svelte)
    } else if str_eq(e, "swift") {
        Some(Grammar::Swift)
    } else if str_eq(e, "ts") {
        Some(Grammar::Typescript)
    } else if str_eq(e, "tsx") {
        Some(Grammar::Tsx)
    } else if str_eq(e, "yaml") || str_eq(e, "yml") {
        Some(Grammar::Yaml)
    } else {
        None
    }
}

#[verifier::external_type_specification]
#[verifier::external_body]
pub struct ExNode<'tree>(tree_sitter::Node<'tree>);

#[verifier::external_type_specification]
#[verifier::external_body]
pub struct ExLanguage(tree_sitter::Language);

/// `tree_sitter_bash::LANGUAGE` converted into a `tree_sitter::Language`; nothing is stated of it.
#[verifier::external_body]
fn bash_language() -> tree_sitter::Language {
    tree_sitter_bash::LANGUAGE.into()
}

/// `tree_sitter_c::LANGUAGE` converted into a `tree_sitter::Language`; nothing is stated of it.
#[verifier::external_body]
fn c_language() -> tree_sitter::Language {
    tree_sitter_c::LANGUAGE.into()
}

/// `tree_sitter_cpp::LANGUAGE` converted into a `tree_sitter::Language`; nothing is stated of it.
#[verifier::external_body]
fn cpp_language() -> tree_sitter::Language {
    tree_sitter_cpp::LANGUAGE.into()
}

/// `tree_sitter_c_sharp::LANGUAGE` converted into a `tree_sitter::Language`; nothing is stated of it.
#[verifier::external_body]
fn c_sharp_language() -> tree_sitter::Language {
    tree_sitter_c_sharp::LANGUAGE.into()
}

/// `tree_sitter_css::LANGUAGE` converted into a `tree_sitter::Language`; nothing is stated of it.
#[verifier::external_body]
fn css_language() -> tree_sitter::Language {
    tree_sitter_css::LANGUAGE.into()
}

/// `tree_sitter_dart::LANGUAGE` converted into a `tree_sitter::Language`; nothing is stated of it.
#[verifier::external_body]
fn dart_language() -> tree_sitter::Language {
    tree_sitter_dart::LANGUAGE.into()
}

/// `tree_sitter_go::LANGUAGE` converted into a `tree_sitter::Language`; nothing is stated of it.
#[verifier::external_body]
fn go_language() -> tree_sitter::Language {
    tree_sitter_go::LANGUAGE.into()
}

/// `tree_sitter_graphql::LANGUAGE` converted into a `tree_sitter::Language`; nothing is stated of it.
#[verifier::external_body]
fn graphql_language() -> tree_sitter::Language {
    tree_sitter_graphql::LANGUAGE.into()
}

/// `tree_sitter_hcl::LANGUAGE` converted into a `tree_sitter::Language`; nothing is stated of it.
#[verifier::external_body]
fn hcl_language() -> tree_sitter::Language {
    tree_sitter_hcl::LANGUAGE.into()
}

/// `tree_sitter_html::LANGUAGE` converted into a `tree_sitter::Language`; nothing is stated of it.
#[verifier::external_body]
fn html_language() -> tree_sitter::Language {
    tree_sitter_html::LANGUAGE.into()
}

/// `tree_sitter_java::LANGUAGE` converted into a `tree_sitter::Language`; nothing is stated of it.
#[verifier::external_body]
fn java_language() -> tree_sitter::Language {
    tree_sitter_java::LANGUAGE.into()
}

/// `tree_sitter_javascript::LANGUAGE` converted into a `tree_sitter::Language`; nothing is stated of it.
#[verifier::external_body]
fn javascript_language() -> tree_sitter::Language {
    tree_sitter_javascript::LANGUAGE.into()
}

/// `tree_sitter_json::LANGUAGE` converted into a `tree_sitter::Language`; nothing is stated of it.
#[verifier::external_body]
fn json_language() -> tree_sitter::Language {
    tree_sitter_json::LANGUAGE.into()
}

/// `tree_sitter_lua::LANGUAGE` converted into a `tree_sitter::Language`; nothing is stated of it.
#[verifier::external_body]
fn lua_language() -> tree_sitter::Language {
    tree_sitter_lua::LANGUAGE.into()
}

/// `tree_sitter_md::LANGUAGE` converted into a `tree_sitter::Language`; nothing is stated of it.
#[verifier::external_body]
fn markdown_language() -> tree_sitter::Language {
    tree_sitter_md::LANGUAGE.into()
}

/// `tree_sitter_php::LANGUAGE_PHP` converted into a `tree_sitter::Language`; nothing is stated of it.
#[verifier::external_body]
fn php_language() -> tree_sitter::Language {
    tree_sitter_php::LANGUAGE_PHP.into()
}

/// `tree_sitter_python::LANGUAGE` converted into a `tree_sitter::Language`; nothing is stated of it.
#[verifier::external_body]
fn python_language() -> tree_sitter::Language {
    tree_sitter_python::LANGUAGE.into()
}

/// `tree_sitter_ruby::LANGUAGE` converted into a `tree_sitter::Language`; nothing is stated of it.
#[verifier::external_body]
fn ruby_language() -> tree_sitter::Language {
    tree_sitter_ruby::LANGUAGE.into()
}

/// `tree_sitter_rust::LANGUAGE` converted into a `tree_sitter::Language`; nothing is stated of it.
#[verifier::external_body]
fn rust_language() -> tree_sitter::Language {
    tree_sitter_rust::LANGUAGE.into()
}

/// `tree_sitter_scala::LANGUAGE` converted into a `tree_sitter::Language`; nothing is stated of it.
#[verifier::external_body]
fn scala_language() -> tree_sitter::Language {
    tree_sitter_scala::LANGUAGE.into()
}

/// `tree_sitter_sequel::LANGUAGE` converted into a `tree_sitter::Language`; nothing is stated of it.
#[verifier::external_body]
fn sql_language() -> tree_sitter::Language {
    tree_sitter_sequel::LANGUAGE.into()
}

/// `tree_sitter_svelte_next::LANGUAGE` converted into a `tree_sitter::Language`; nothing is stated of it.
#[verifier::external_body]
fn svelte_language() -> tree_sitter::Language {
    tree_sitter_svelte_next::LANGUAGE.into()
}

/// `tree_sitter_swift::LANGUAGE` converted into a `tree_sitter::Language`; nothing is stated of it.
#[verifier::external_body]
fn swift_language() -> tree_sitter::Language {
    tree_sitter_swift::LANGUAGE.into()
}

/// `tree_sitter_typescript::LANGUAGE_TYPESCRIPT` converted into a `tree_sitter::Language`; nothing is stated of it.
#[verifier::external_body]
fn typescript_language() -> tree_sitter::Language {
    tree_sitter_typescript::LANGUAGE_TYPESCRIPT.into()
}

/// `tree_sitter_typescript::LANGUAGE_TSX` converted into a `tree_sitter::Language`; nothing is stated of it.
#[verifier::external_body]
fn tsx_language() -> tree_sitter::Language {
    tree_sitter_typescript::LANGUAGE_TSX.into()
}

/// `tree_sitter_yaml::LANGUAGE` converted into a `tree_sitter::Language`; nothing is stated of it.
#[verifier::external_body]
fn yaml_language() -> tree_sitter::Language {
    tree_sitter_yaml::LANGUAGE.into()
}

/// Tree-sitter language of a grammar.
fn grammar_language(grammar: Grammar) -> tree_sitter::Language {
    match grammar {
        Grammar::Bash => bash_language(),
        Grammar::C => c_language(),
        Grammar::Cpp => cpp_language(),
        Grammar::CSharp => c_sharp_language(),
        Grammar::Css => css_language(),
        Grammar::Dart => dart_language(),
        Grammar::Go => go_language(),
        Grammar::Graphql => graphql_language(),
        Grammar::Hcl => hcl_language(),
        Grammar::Html => html_language(),
        Grammar::Java => java_language(),
        Grammar::Javascript => javascript_language(),
        Grammar::Json => json_language(),
        Grammar::Lua => lua_language(),
        Grammar::Markdown => markdown_language(),
        Grammar::Php => php_language(),
        Grammar::Python => python_language(),
        Grammar::Ruby => ruby_language(),
        Grammar::Rust => rust_language(),
        Grammar::Scala => scala_language(),
        Grammar::Sql => sql_language(),
        Grammar::Svelte => svelte_language(),
        Grammar::Swift => swift_language(),
        Grammar::Typescript => typescript_language(),
        Grammar::Tsx => tsx_language(),
        Grammar::Yaml => yaml_language(),
    }
}

/// Name for the tree that the tree-sitter parser gives for `content` under
/// `grammar`, held as plain values: each node with its kind, whether it is
/// named, its byte range and its named children in order; `None` when the
/// grammar's language cannot be set or the parser yields no tree. The parse
/// runs without a timeout or a cancellation flag, so it depends on the text
/// and the grammar alone.
pub uninterp spec fn parsed_syntax_tree(content: Seq<char>, grammar: Grammar) -> Option<SyntaxTree>;

/// Copies a tree-sitter node into a [`SyntaxNode`]: `Node::kind`,
/// `Node::is_named`, `Node::byte_range` and, through `Node::named_children`,
/// each named child in the same way, one for one. Nothing is stated of the
/// copy by itself; [`parse_syntax_tree`] states what the whole copy is.
#[verifier::external_body]
fn copy_node(node: &tree_sitter::Node) -> SyntaxNode {
    let mut cursor = node.walk();
    let children = node.named_children(&mut cursor).map(|child| copy_node(&child)).collect();
    let range = node.byte_range();
    SyntaxNode { kind: node.kind().to_owned(), named: node.is_named(), start: range.start, end: range.end, children }
}

/// Parses `content` with the grammar's tree-sitter language
/// (`tree_sitter::Parser::new`, `Parser::set_language`, then
/// `Parser::parse(content, None)`) and copies the tree one node for one,
/// with `Node::has_error` of the root. The contract claims that the result
/// is the named parse of the text under the grammar.
#[verifier::external_body]
fn parse_syntax_tree(content: &str, grammar: Grammar) -> (tree: Option<SyntaxTree>)
    ensures
        tree == parsed_syntax_tree(content@, grammar),
{
    let language = grammar_language(grammar);
    let mut parser = tree_sitter::Parser::new();
    parser.set_language(&language).ok()?;
    let parsed = parser.parse(content, None)?;
    let root = parsed.root_node();
    Some(SyntaxTree { has_error: root.has_error(), root: copy_node(&root) })
}

/// Parses content into a syntax tree held as plain values: the named parse
/// of the text under the grammar. `None` when the grammar cannot be loaded
/// or the parser yields no tree.
pub fn syntax_tree(content: &str, grammar: Grammar) -> (tree: Option<SyntaxTree>)
    ensures
        tree == parsed_syntax_tree(content@, grammar),
{
    parse_syntax_tree(content, grammar)
}

/// Kinds of the deepest semantic code parts worth descending to.
pub open spec fn function_depth_kind(kind: Seq<char>) -> bool {
    ||| contains_seq(kind, "function"@)
    ||| contains_seq(kind, "method"@)
    ||| contains_seq(kind, "constructor"@)
    ||| kind == "lambda_expression"@
    ||| kind == "record_declaration"@
}

/// Kinds of nodes that exist only to group child syntax.
pub open spec fn container_kind(kind: Seq<char>) -> bool {
    kind == "class_body"@ || kind == "declaration_list"@ || kind == "module"@ || kind == "program"@
}

/// Whether a node is useful as an extraction part: a named, non-empty node
/// that is no container and is a function-like node, a declaration, a
/// definition, an item or a class.
pub open spec fn code_part_node(node: SyntaxNode) -> bool {
    let kind = node.kind@;
    &&& node.named
    &&& node.start < node.end
    &&& !container_kind(kind)
    &&& {
        ||| function_depth_kind(kind)
        ||| "declaration"@.is_suffix_of(kind)
        ||| "definition"@.is_suffix_of(kind)
        ||| "item"@.is_suffix_of(kind)
        ||| "class"@.is_suffix_of(kind)
    }
}

/// Whether a node or one of its descendants is a code part.
pub open spec fn contains_code_part_spec(node: SyntaxNode) -> bool
    decreases node, 1int, 0int,
{
    code_part_node(node) || any_child_contains(node, node.children.len() as int)
}

/// Whether one of the first `k` named children of a node contains a code part.
pub open spec fn any_child_contains(node: SyntaxNode, k: int) -> bool
    decreases node, 0int, k,
{
    if k <= 0 || k > node.children.len() {
        false
    } else {
        any_child_contains(node, k - 1) || contains_code_part_spec(node.children[k - 1])
    }
}

/// Once a child contains a code part, later prefixes of the children do too.
proof fn lemma_any_child_monotone(node: SyntaxNode, a: int, b: int)
    requires
        0 <= a <= b <= node.children.len(),
        any_child_contains(node, a),
    ensures
        any_child_contains(node, b),
    decreases b - a,
{
    if a < b {
        lemma_any_child_monotone(node, a, b - 1);
    }
}

/// Code part ranges collected from a node: the node itself when it is not
/// the root, is a code part, and is function-like or has no code parts
/// below it; otherwise those of its children in order.
pub open spec fn code_ranges(node: SyntaxNode, is_root: bool) -> Seq<(Seq<char>, usize, usize)>
    decreases node, 1int, 0int,
{
    if !is_root && code_part_node(node) && (function_depth_kind(node.kind@) || !any_child_contains(
        node,
        node.children.len() as int,
    )) {
        seq![(node.kind@, node.start, node.end)]
    } else {
        children_code_ranges(node, node.children.len() as int)
    }
}

/// Code part ranges collected from the first `k` named children of a node.
pub open spec fn children_code_ranges(node: SyntaxNode, k: int) -> Seq<(Seq<char>, usize, usize)>
    decreases node, 0int, k,
{
    if k <= 0 || k > node.children.len() {
        seq![]
    } else {
        children_code_ranges(node, k - 1) + code_ranges(node.children[k - 1], false)
    }
}

/// Syntax node kind and byte range used for structured code extraction.
pub struct CodePartRange {
    /// Node kind reported by the grammar.
    pub kind: String,
    /// Start byte offset.
    pub start: usize,
    /// End byte offset (exclusive).
    pub end: usize,
}

/// Code part ranges viewed as kinds and offsets.
pub open spec fn code_ranges_view(ranges: Seq<CodePartRange>) -> Seq<(Seq<char>, usize, usize)> {
    ranges.map_values(|r: CodePartRange| (r.kind@, r.start, r.end))
}

/// Returns whether node exists only to group child syntax.
fn is_code_container_node(kind: &str) -> (container: bool)
    ensures
        container == container_kind(kind@),
{
    str_eq(kind, "class_body") || str_eq(kind, "declaration_list") || str_eq(kind, "module")
        || str_eq(kind, "program")
}

/// Returns whether node is deepest semantic code part worth descending to.
fn is_function_depth_node(node: &SyntaxNode) -> (deep: bool)
    ensures
        deep == function_depth_kind(node.kind@),
{
    let kind = node.kind.as_str();
    contains(kind, "function") || contains(kind, "method") || contains(kind, "constructor")
        || str_eq(kind, "lambda_expression") || str_eq(kind, "record_declaration")
}

/// Returns whether a named node is useful as an extraction part.
fn is_code_part_node(node: &SyntaxNode) -> (part: bool)
    ensures
        part == code_part_node(*node),
{
    if !node.named || node.start >= node.end {
        return false;
    }
    let kind = node.kind.as_str();
    if is_code_container_node(kind) {
        return false;
    }
    is_function_depth_node(node) || ends_with(kind, "declaration") || ends_with(kind, "definition")
        || ends_with(kind, "item") || ends_with(kind, "class")
}

/// Returns whether a node or descendant is a code part.
fn contains_code_part(node: &SyntaxNode) -> (found: bool)
    ensures
        found == contains_code_part_spec(*node),
    decreases node,
{
    if is_code_part_node(node) {
        return true;
    }
    has_child_code_parts(node)
}

/// Returns whether a node contains child code parts.
fn has_child_code_parts(node: &SyntaxNode) -> (found: bool)
    ensures
        found == any_child_contains(*node, node.children.len() as int),
    decreases node, 0int,
{
    let mut i: usize = 0;
    while i < node.children.len()
        invariant
            i <= node.children.len(),
            !any_child_contains(*node, i as int),
        decreases node.children.len() - i,
    {
        if contains_code_part(&node.children[i]) {
            proof {
                lemma_any_child_monotone(*node, i as int + 1, node.children.len() as int);
            }
            return true;
        }
        i = i + 1;
    }
    false
}

/// Collect useful named syntax nodes with hierarchy metadata; returns
/// whether any range was collected.
fn collect_code_part_ranges(node: &SyntaxNode, is_root: bool, ranges: &mut Vec<CodePartRange>) -> (added: bool)
    ensures
        code_ranges_view(final(ranges)@) == code_ranges_view(old(ranges)@) + code_ranges(*node, is_root),
        added == (code_ranges(*node, is_root).len() > 0),
    decreases node,
{
    let ghost before = code_ranges_view(ranges@);
    if !is_root && is_code_part_node(node) && (is_function_depth_node(node) || !has_child_code_parts(
        node,
    )) {
        let ghost old_ranges = ranges@;
        ranges.push(CodePartRange { kind: node.kind.clone(), start: node.start, end: node.end });
        assert(code_ranges_view(ranges@) =~= code_ranges_view(old_ranges).push(
            (node.kind@, node.start, node.end),
        ));
        return true;
    }
    let start_len = ranges.len();
    let mut i: usize = 0;
    while i < node.children.len()
        invariant
            i <= node.children.len(),
            before.len() == start_len,
            code_ranges_view(ranges@) == before + children_code_ranges(*node, i as int),
        decreases node.children.len() - i,
    {
        collect_code_part_ranges(&node.children[i], false, ranges);
        assert(code_ranges_view(ranges@) =~= before + children_code_ranges(*node, i as int + 1));
        i = i + 1;
    }
    ranges.len() > start_len
}

/// Code part ranges of a syntax tree: `None` when the tree has errors or
/// holds no code part.
pub open spec fn tree_code_ranges(tree: SyntaxTree) -> Option<Seq<(Seq<char>, usize, usize)>> {
    let ranges = code_ranges(tree.root, true);
    if tree.has_error || ranges.len() == 0 {
        None
    } else {
        Some(ranges)
    }
}

/// Extract top-level named syntax node ranges of a syntax tree.
pub fn code_part_ranges_of_tree(tree: &SyntaxTree) -> (ranges: Option<Vec<CodePartRange>>)
    ensures
        match ranges {
            Some(r) => tree_code_ranges(*tree) == Some(code_ranges_view(r@)),
            None => tree_code_ranges(*tree) is None,
        },
{
    if tree.has_error {
        return None;
    }
    let mut ranges: Vec<CodePartRange> = Vec::new();
    collect_code_part_ranges(&tree.root, true, &mut ranges);
    assert(code_ranges_view(ranges@) =~= code_ranges(tree.root, true));
    if ranges.len() == 0 {
        None
    } else {
        Some(ranges)
    }
}

/// Grammar a file extension selects, if any.
pub open spec fn extension_grammar(file_extension: Option<Seq<char>>) -> Option<Grammar> {
    match file_extension {
        Some(e) => spec_grammar_for_extension(e),
        None => None,
    }
}

/// Code part ranges of a text: those of the named parse of the text under
/// the grammar of its extension; `None` without an extension, without a
/// grammar for it, without a tree, or when the tree has errors or no code
/// part.
pub open spec fn spec_code_part_ranges(content: Seq<char>, file_extension: Option<Seq<char>>) -> Option<
    Seq<(Seq<char>, usize, usize)>,
> {
    match extension_grammar(file_extension) {
        None => None,
        Some(g) => match parsed_syntax_tree(content, g) {
            None => None,
            Some(tree) => tree_code_ranges(tree),
        },
    }
}

/// Extract top-level named syntax node ranges for code/document structure:
/// the code part ranges of the named parse of the content under the grammar
/// of the extension.
pub fn code_part_ranges(content: &str, file_extension: Option<&str>) -> (ranges: Option<
    Vec<CodePartRange>,
>)
    ensures
        match ranges {
            Some(r) => spec_code_part_ranges(content@, opt_str(file_extension)) == Some(code_ranges_view(r@)),
            None => spec_code_part_ranges(content@, opt_str(file_extension)) is None,
        },
{
    let extension = match file_extension {
        Some(e) => e,
        None => return None,
    };
    let grammar = match language_for_extension(extension) {
        Some(g) => g,
        None => return None,
    };
    let tree = match syntax_tree(content, grammar) {
        Some(t) => t,
        None => return None,
    };
    code_part_ranges_of_tree(&tree)
}

/// Optional string slice viewed as optional characters.
pub open spec fn opt_str(s: Option<&str>) -> Option<Seq<char>> {
    match s {
        Some(e) => Some(e@),
        None => None,
    }
}

} // verus!
