//! A parser for one language, and the trees it makes.

use vstd::prelude::*;

use crate::error::Error;
use crate::languages::{is_rust, supported};
use crate::ts::{compile_rust_highlights, rust_captures, set_rust_grammar, RawCapture};

verus! {

/// A tree-sitter parser set to the Rust grammar, the one language supported.
///
/// Only `new` makes one, and only once the grammar was set.
pub struct SyntaxParser(tree_sitter::Parser);

/// A Rust syntax tree together with the content it was parsed from.
///
/// Only `SyntaxParser::parse` makes one, so the tree's byte ranges always lie
/// in the content.
pub struct ParsedSource {
    tree: tree_sitter::Tree,
    content: Vec<u8>,
}

impl ParsedSource {
    /// The content the tree was parsed from.
    pub closed spec fn content_view(&self) -> Seq<u8> {
        self.content@
    }

    /// The content the tree was parsed from.
    pub fn content(&self) -> (r: &[u8])
        ensures
            r@ == self.content_view(),
    {
        self.content.as_slice()
    }

    /// The tree.
    pub fn tree(&self) -> &tree_sitter::Tree {
        &self.tree
    }

    /// The content the tree was parsed from, without the tree.
    pub fn into_content(self) -> (r: Vec<u8>)
        ensures
            r@ == self.content_view(),
    {
        self.content
    }
}

/// Relies on `tree_sitter::Parser::parse`, with no earlier tree, which gives
/// no tree only where the parser has no language, or where a timeout or a
/// cancellation flag was set. A `SyntaxParser` is made only after its grammar
/// was set, and sets neither of the others.
#[verifier::external_body]
fn parse_content(parser: &mut SyntaxParser, content: &[u8]) -> (r: Option<tree_sitter::Tree>)
    ensures
        r is Some,
{
    parser.0.parse(content, None)
}

/// The compiled highlight query of the Rust grammar.
///
/// Only `rust` makes one.
pub struct HighlightQuery(tree_sitter::Query);

impl HighlightQuery {
    /// The highlight query that comes with the Rust grammar, compiled.
    pub fn rust() -> (r: Option<HighlightQuery>)
        ensures
            r is Some,
    {
        match compile_rust_highlights() {
            Ok(q) => Some(HighlightQuery(q)),
            Err(_) => None,
        }
    }
}

/// Relies on `tree_sitter::QueryCursor::captures` over the whole tree, with
/// the content the tree was parsed from (the cursor reads the text of nodes
/// for the query's predicates), and on `tree_sitter::Query::capture_names`:
/// each capture it yields, in its order, as the points of the captured node
/// and the capture's name. The query is always the Rust highlight query, and
/// the tree the Rust parse of the content, so the captures depend on the
/// content alone.
#[verifier::external_body]
pub(crate) fn query_captures(query: &HighlightQuery, source: &ParsedSource) -> (r: Vec<RawCapture>)
    ensures
        r@.map_values(|c: RawCapture| c@) == rust_captures(source.content_view()),
{
    let names = query.0.capture_names();
    let mut cursor = tree_sitter::QueryCursor::new();
    let mut captures = Vec::new();
    for (found, i) in cursor.captures(&query.0, source.tree.root_node(), source.content.as_slice()) {
        let capture = found.captures[i];
        let range = capture.node.range();
        captures.push(RawCapture {
            start_row: range.start_point.row,
            start_column: range.start_point.column,
            end_row: range.end_point.row,
            end_column: range.end_point.column,
            name: names[capture.index as usize].clone(),
        });
    }
    captures
}

impl SyntaxParser {
    /// Creates a parser for an editor file type: one exactly for a supported
    /// language.
    pub fn new(language: &str) -> (r: Result<SyntaxParser, Error>)
        ensures
            r is Ok <==> supported(language@),
            !supported(language@) ==> r is Err && r->Err_0.is_unsupported_language(language@),
    {
        if is_rust(language) {
            let mut parser = tree_sitter::Parser::new();
            match set_rust_grammar(&mut parser) {
                Ok(()) => Ok(SyntaxParser(parser)),
                Err(_) => Err(Error::IncompatibleGrammar { language: String::from_str(language) }),
            }
        } else {
            Err(Error::UnsupportedLanguage { language: String::from_str(language) })
        }
    }

    /// Parses `content` into a tree, kept with it.
    pub fn parse(&mut self, content: Vec<u8>) -> (r: Option<ParsedSource>)
        ensures
            r is Some,
            r is Some ==> r->Some_0.content_view() == content@,
    {
        match parse_content(self, content.as_slice()) {
            Some(tree) => Some(ParsedSource { tree, content }),
            None => None,
        }
    }
}

} // verus!
