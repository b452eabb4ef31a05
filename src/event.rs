//! An event sent by the editor over the server's socket.

use vstd::prelude::*;

verus! {

/// An event from the editor.
#[derive(Clone, Debug, PartialEq, Eq)]
pub enum Event {
    /// A document of a language is to be highlighted.
    Highlight { buffer: String, language: String },
}

} // verus!
