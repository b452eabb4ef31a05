//! Turns the captures of a syntax-tree query into flat, non-overlapping styled
//! ranges for the Kakoune editor, and keeps the per-document and per-language
//! state that this work needs: documents, their trees, and the parsers,
//! queries and style tables of each language.

pub mod range;
pub mod resolve;
pub mod resolve_lemmas;
pub mod text;
pub mod kakoune;
pub mod table;
pub mod ts;
pub mod error;
pub mod languages;
pub mod tree;
pub mod buffer;
pub mod config;
pub mod highlight;
pub mod request;
pub mod server;
pub mod events;
pub mod event;
pub mod args;
