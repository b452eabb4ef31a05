//! The tree-sitter items the library calls, with what it assumes of each.

use vstd::prelude::*;

verus! {

#[verifier::external_type_specification]
#[verifier::external_body]
pub struct ExParser(tree_sitter::Parser);

#[verifier::external_type_specification]
#[verifier::external_body]
pub struct ExTree(tree_sitter::Tree);

#[verifier::external_type_specification]
#[verifier::external_body]
pub struct ExQuery(tree_sitter::Query);

#[verifier::external_type_specification]
#[verifier::external_body]
pub struct ExLanguage(tree_sitter::Language);

#[verifier::external_type_specification]
#[verifier::external_body]
pub struct ExLanguageError(tree_sitter::LanguageError);

#[verifier::external_type_specification]
#[verifier::external_body]
pub struct ExQueryError(tree_sitter::QueryError);

#[verifier::external_type_specification]
#[verifier::external_body]
pub struct ExHighlightConfiguration(tree_sitter_highlight::HighlightConfiguration);

/// Relies on `tree_sitter::Parser::new`: a parser without a language.
pub assume_specification[ tree_sitter::Parser::new ]() -> tree_sitter::Parser;

/// Relies on `tree_sitter_rust::language`: the Rust grammar.
pub assume_specification[ tree_sitter_rust::language ]() -> tree_sitter::Language;

/// A capture as the query cursor reports it: its node's 0-indexed start and
/// end (exclusive) points, and the capture's name.
#[derive(Clone, Debug, PartialEq, Eq)]
pub struct RawCapture {
    pub start_row: usize,
    pub start_column: usize,
    pub end_row: usize,
    pub end_column: usize,
    pub name: String,
}

impl View for RawCapture {
    type V = (usize, usize, usize, usize, Seq<char>);

    open spec fn view(&self) -> (usize, usize, usize, usize, Seq<char>) {
        (self.start_row, self.start_column, self.end_row, self.end_column, self.name@)
    }
}

/// The captures of the Rust highlight query over the Rust syntax tree of
/// `content`, in the order the query cursor yields them: each as its node's
/// 0-indexed start and end points and the capture's name.
pub uninterp spec fn rust_captures(content: Seq<u8>) -> Seq<(usize, usize, usize, usize, Seq<char>)>;

/// Relies on `tree_sitter::Parser::set_language` with
/// `tree_sitter_rust::language()`: the call fails only for a grammar whose ABI
/// version lies outside 13 to 14, and the Rust grammar is of version 14
/// (`LANGUAGE_VERSION` in tree-sitter-rust's `parser.c`).
#[verifier::external_body]
pub(crate) fn set_rust_grammar(
    parser: &mut tree_sitter::Parser,
) -> (r: Result<(), tree_sitter::LanguageError>)
    ensures
        r is Ok,
{
    parser.set_language(tree_sitter_rust::language())
}

/// Relies on `tree_sitter::Query::new` with `tree_sitter_rust::language()` and
/// `tree_sitter_rust::HIGHLIGHT_QUERY`: the highlight query shipped with the
/// Rust grammar compiles for that grammar.
#[verifier::external_body]
pub(crate) fn compile_rust_highlights() -> (r: Result<tree_sitter::Query, tree_sitter::QueryError>)
    ensures
        r is Ok,
{
    tree_sitter::Query::new(tree_sitter_rust::language(), tree_sitter_rust::HIGHLIGHT_QUERY)
}

/// Relies on `tree_sitter_highlight::HighlightConfiguration::new` with
/// `tree_sitter_rust::language()`, `tree_sitter_rust::HIGHLIGHT_QUERY` and
/// empty injection and locals queries: it fails only where one of the queries
/// does not compile, and the shipped highlight query and the empty query
/// compile for the Rust grammar.
#[verifier::external_body]
pub(crate) fn rust_highlight_configuration() -> (r: Result<
    tree_sitter_highlight::HighlightConfiguration,
    tree_sitter::QueryError,
>)
    ensures
        r is Ok,
{
    tree_sitter_highlight::HighlightConfiguration::new(
        tree_sitter_rust::language(),
        tree_sitter_rust::HIGHLIGHT_QUERY,
        "",
        "",
    )
}

/// Relies on `tree_sitter_rust::HIGHLIGHT_QUERY`: the highlight query that
/// comes with the Rust grammar.
#[verifier::external_body]
pub(crate) fn rust_highlight_query() -> &'static str {
    tree_sitter_rust::HIGHLIGHT_QUERY
}

/// Relies on `tree_sitter_highlight::HighlightConfiguration::configure`,
/// which maps the configuration's captures to the given highlight names.
#[verifier::external_body]
pub(crate) fn configure_names(
    config: &mut tree_sitter_highlight::HighlightConfiguration,
    names: &[&str],
) {
    config.configure(names)
}

} // verus!
