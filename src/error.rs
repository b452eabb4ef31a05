//! Why a request failed.

use vstd::prelude::*;

verus! {

/// Why a request failed; none of these ends the session.
#[derive(Clone, Debug, PartialEq, Eq)]
pub enum Error {
    /// No grammar or highlight query is known for the language.
    UnsupportedLanguage { language: String },
    /// The grammar cannot be loaded by this version of the parser.
    IncompatibleGrammar { language: String },
    /// The language's highlight query does not compile.
    InvalidQuery { language: String },
    /// No document has this name.
    UnknownDocument { buffer: String },
    /// The parser returned no tree.
    ParseFailure { buffer: String },
    /// The document has no tree yet: it was never parsed, or its language
    /// changed since.
    NotParsed { buffer: String },
    /// The request could not be decoded.
    MalformedRequest,
    /// The query engine reported a capture that could not be used; the
    /// ranges before it were kept.
    CaptureStreamError { buffer: String },
}

/// The text of an error, as it is shown in the editor.
pub open spec fn error_text(e: Error) -> Seq<char> {
    match e {
        Error::UnsupportedLanguage { language } => "unsupported language: "@ + language@,
        Error::IncompatibleGrammar { language } => "incompatible grammar: "@ + language@,
        Error::InvalidQuery { language } => "invalid highlight query: "@ + language@,
        Error::UnknownDocument { buffer } => "unknown buffer: "@ + buffer@,
        Error::ParseFailure { buffer } => "parsing error: "@ + buffer@,
        Error::NotParsed { buffer } => "buffer not parsed: "@ + buffer@,
        Error::MalformedRequest => "malformed request"@,
        Error::CaptureStreamError { buffer } => "capture stream error: "@ + buffer@,
    }
}

impl Error {
    pub open spec fn is_unsupported_language(self, language: Seq<char>) -> bool {
        self matches Error::UnsupportedLanguage { language: l } && l@ == language
    }

    pub open spec fn is_unknown_document(self, buffer: Seq<char>) -> bool {
        self matches Error::UnknownDocument { buffer: b } && b@ == buffer
    }

    pub open spec fn is_not_parsed(self, buffer: Seq<char>) -> bool {
        self matches Error::NotParsed { buffer: b } && b@ == buffer
    }

    /// The text of the error, as it is shown in the editor.
    pub fn message(&self) -> (r: String)
        ensures
            r@ == error_text(*self),
    {
        let (head, name) = match self {
            Error::UnsupportedLanguage { language } => ("unsupported language: ", language.as_str()),
            Error::IncompatibleGrammar { language } => ("incompatible grammar: ", language.as_str()),
            Error::InvalidQuery { language } => ("invalid highlight query: ", language.as_str()),
            Error::UnknownDocument { buffer } => ("unknown buffer: ", buffer.as_str()),
            Error::ParseFailure { buffer } => ("parsing error: ", buffer.as_str()),
            Error::NotParsed { buffer } => ("buffer not parsed: ", buffer.as_str()),
            Error::MalformedRequest => {
                return String::from_str("malformed request");
            },
            Error::CaptureStreamError { buffer } => ("capture stream error: ", buffer.as_str()),
        };
        let mut s = String::from_str(head);
        s.append(name);
        s
    }
}

} // verus!
