//! What the editor asks of the server.

use vstd::prelude::*;

verus! {

/// A request from the editor.
#[derive(Clone, Debug, PartialEq, Eq)]
pub enum Request {
    /// Reloads the style tables from a file.
    ReloadConfig { config: String },
    /// Registers a document and its language.
    NewBuffer { buffer: String, language: String },
    /// Sets a document's language.
    SetLanguage { buffer: String, language: String },
    /// Parses a document's new content.
    ParseBuffer { buffer: String, content: Vec<u8> },
    /// Highlights a parsed document.
    Highlight { buffer: String },
}

/// What the caller does once a request is handled.
#[derive(Clone, Debug, PartialEq, Eq)]
pub enum Response {
    /// Nothing.
    Done,
    /// Reads the style tables from this file and hands them to the server.
    ReloadConfig { config: String },
    /// Sends these commands to the editor, in order.
    Commands(Vec<String>),
}

} // verus!
