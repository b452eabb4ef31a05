//! A document of the editor, and its syntax tree.

use vstd::prelude::*;

use crate::tree::ParsedSource;

verus! {

/// A document's language, its content, and its tree; a parsed document's
/// content is the one its tree was parsed from.
pub struct Buffer {
    pub language: String,
    pub content: Vec<u8>,
    pub tree: Option<ParsedSource>,
}

/// What a document is in contracts; the tree itself is opaque.
pub struct BufferView {
    pub language: Seq<char>,
    pub content: Seq<u8>,
    pub parsed: bool,
}

impl View for Buffer {
    type V = BufferView;

    open spec fn view(&self) -> BufferView {
        BufferView {
            language: self.language@,
            content: match self.tree {
                Some(source) => source.content_view(),
                None => self.content@,
            },
            parsed: self.tree is Some,
        }
    }
}

impl Buffer {
    /// Creates a new `Buffer`.
    pub fn new(language: String, tree: Option<ParsedSource>, content: Vec<u8>) -> (r: Buffer)
        ensures
            r@ == (BufferView {
                language: language@,
                content: match tree {
                    Some(source) => source.content_view(),
                    None => content@,
                },
                parsed: tree is Some,
            }),
    {
        Buffer { language, tree, content }
    }
}

} // verus!
