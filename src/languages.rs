//! The languages the library knows: a grammar and its highlight query each.

use vstd::prelude::*;

use crate::error::Error;
use crate::tree::HighlightQuery;
use crate::ts::{configure_names, rust_highlight_configuration, rust_highlight_query};

verus! {

/// Whether a grammar and a highlight query are known for the language.
pub open spec fn supported(language: Seq<char>) -> bool {
    language == "rust"@
}

/// A language: its grammar, and the query that highlights it.
pub struct Lang {
    language: tree_sitter::Language,
    highlight_query: Option<HighlightQuery>,
}

pub(crate) fn is_rust(language: &str) -> (r: bool)
    ensures
        r == supported(language@),
{
    String::from_str(language) == String::from_str("rust")
}

impl Lang {
    /// Whether the language has a highlight query.
    pub closed spec fn has_highlights(&self) -> bool {
        self.highlight_query is Some
    }

    /// Creates a new `Lang` from a grammar and its compiled highlight query,
    /// if it has one.
    pub fn new(language: tree_sitter::Language, query: Option<HighlightQuery>) -> (r: Lang)
        ensures
            r.has_highlights() == query is Some,
    {
        Lang { language, highlight_query: query }
    }

    /// The language of an editor file type.
    pub fn try_from(language: &str) -> (r: Result<Lang, Error>)
        ensures
            !supported(language@) ==> r is Err && r->Err_0.is_unsupported_language(language@),
            supported(language@) ==> r is Ok && r->Ok_0.has_highlights(),
    {
        if is_rust(language) {
            Ok(Lang::new(tree_sitter_rust::language(), HighlightQuery::rust()))
        } else {
            Err(Error::UnsupportedLanguage { language: String::from_str(language) })
        }
    }

    /// The grammar.
    pub fn into_grammar(self) -> tree_sitter::Language {
        self.language
    }

    /// The highlight query, if the language has one.
    pub fn into_highlight_query(self) -> (r: Option<HighlightQuery>)
        ensures
            r is Some == self.has_highlights(),
    {
        self.highlight_query
    }
}

/// The highlight names that a highlight configuration recognises.
pub open spec fn highlight_names_text() -> Seq<Seq<char>> {
    seq![
        "attribute"@,
        "constant"@,
        "comment"@,
        "function.builtin"@,
        "function"@,
        "keyword"@,
        "operator"@,
        "property"@,
        "punctuation"@,
        "punctuation.bracket"@,
        "punctuation.delimiter"@,
        "string"@,
        "string.special"@,
        "tag"@,
        "type"@,
        "type.builtin"@,
        "variable"@,
        "variable.builtin"@,
        "variable.parameter"@,
    ]
}

/// The highlight names that a highlight configuration recognises.
pub fn highlight_names() -> (r: Vec<&'static str>)
    ensures
        r@.map_values(|n: &str| n@) == highlight_names_text(),
{
    vec![
        "attribute",
        "constant",
        "comment",
        "function.builtin",
        "function",
        "keyword",
        "operator",
        "property",
        "punctuation",
        "punctuation.bracket",
        "punctuation.delimiter",
        "string",
        "string.special",
        "tag",
        "type",
        "type.builtin",
        "variable",
        "variable.builtin",
        "variable.parameter",
    ]
}

/// The grammar, the highlight query and the injection query of a language.
pub fn language_queries(language: &str) -> (r: Result<
    (tree_sitter::Language, &'static str, &'static str),
    Error,
>)
    ensures
        supported(language@) <==> r is Ok,
        r is Ok ==> r->Ok_0.2@ == ""@,
        !supported(language@) ==> r is Err && r->Err_0.is_unsupported_language(language@),
{
    if is_rust(language) {
        Ok((tree_sitter_rust::language(), rust_highlight_query(), ""))
    } else {
        Err(Error::UnsupportedLanguage { language: String::from_str(language) })
    }
}

/// The highlight configuration of a language, recognising the names of
/// `highlight_names`.
pub fn highlighter_config(language: &str) -> (r: Result<
    tree_sitter_highlight::HighlightConfiguration,
    Error,
>)
    ensures
        !supported(language@) ==> r is Err && r->Err_0.is_unsupported_language(language@),
        r is Ok <==> supported(language@),
{
    if !is_rust(language) {
        return Err(Error::UnsupportedLanguage { language: String::from_str(language) });
    }
    match rust_highlight_configuration() {
        Ok(mut config) => {
            let names = highlight_names();
            configure_names(&mut config, names.as_slice());
            Ok(config)
        },
        Err(_) => Err(Error::InvalidQuery { language: String::from_str(language) }),
    }
}

} // verus!
