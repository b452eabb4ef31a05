//! The session: documents, the per-language parsers and highlighters made
//! on first use and shared by every document of the language, and the style
//! tables; and the handling of each request against them.

use vstd::prelude::*;

use crate::buffer::{Buffer, BufferView};
use crate::config::Config;
use crate::error::Error;
use crate::highlight::Highlighter;
use crate::kakoune::{command_text, debug_command, highlight_command, Kakoune};
use crate::languages::supported;
use crate::range::range_spans;
use crate::request::{Request, Response};
use crate::highlight::highlights_of;
use crate::ts::rust_captures;
use crate::table::Table;
use crate::tree::SyntaxParser;
use vstd::slice::slice_to_vec;

verus! {

/// What a session is in contracts.
pub struct Session {
    /// Each document, by name.
    pub buffers: Map<Seq<char>, BufferView>,
    /// The languages that have a parser.
    pub parsers: Set<Seq<char>>,
    /// The highlighter of each language that has one.
    pub highlighters: Map<Seq<char>, Highlighter>,
    /// The style table of each configured language.
    pub styles: Map<Seq<char>, Map<Seq<char>, Seq<char>>>,
}

/// `t` is `s` with `buffers` in place of its documents.
pub open spec fn with_buffers(s: Session, t: Session, buffers: Map<Seq<char>, BufferView>) -> bool {
    t == Session { buffers, parsers: s.parsers, highlighters: s.highlighters, styles: s.styles }
}

/// A new document: registered with its language, no content and no tree,
/// in place of any document of that name.
pub open spec fn new_buffer_done(
    s: Session,
    t: Session,
    buffer: Seq<char>,
    language: Seq<char>,
) -> bool {
    with_buffers(
        s,
        t,
        s.buffers.insert(buffer, BufferView { language, content: Seq::empty(), parsed: false }),
    )
}

/// A document's language changed: its tree is dropped.
pub open spec fn set_language_done(
    s: Session,
    t: Session,
    buffer: Seq<char>,
    language: Seq<char>,
    r: Result<(), Error>,
) -> bool {
    if !s.buffers.contains_key(buffer) {
        r is Err && r->Err_0.is_unknown_document(buffer) && t == s
    } else {
        r is Ok && with_buffers(
            s,
            t,
            s.buffers.insert(
                buffer,
                BufferView { language, content: s.buffers[buffer].content, parsed: false },
            ),
        )
    }
}

/// A document parsed: its content and tree replaced on success, the
/// language's parser made if it had none, the document left as it was on
/// failure.
pub open spec fn parse_done(
    s: Session,
    t: Session,
    buffer: Seq<char>,
    content: Seq<u8>,
    r: Result<(), Error>,
) -> bool {
    if !s.buffers.contains_key(buffer) {
        r is Err && r->Err_0.is_unknown_document(buffer) && t == s
    } else {
        let language = s.buffers[buffer].language;
        &&& t.highlighters == s.highlighters
        &&& t.styles == s.styles
        &&& s.parsers.subset_of(t.parsers)
        &&& t.parsers.subset_of(s.parsers.insert(language))
        &&& r is Ok <==> supported(language)
        &&& !supported(language) ==> r is Err && r->Err_0.is_unsupported_language(language)
            && t == s
        &&& s.parsers.contains(language) ==> t.parsers == s.parsers
        &&& r is Ok ==> t.parsers.contains(language) && t.buffers == s.buffers.insert(
            buffer,
            BufferView { language, content, parsed: true },
        )
    }
}

/// A document highlighted: the commands that set its ranges, computed by
/// the language's highlighter, made if it had none; the documents and the
/// other highlighters stay as they were.
pub open spec fn highlight_done(
    s: Session,
    t: Session,
    buffer: Seq<char>,
    r: Result<Vec<String>, Error>,
) -> bool {
    &&& t.buffers == s.buffers
    &&& t.parsers == s.parsers
    &&& t.styles == s.styles
    &&& if !s.buffers.contains_key(buffer) {
        r is Err && r->Err_0.is_unknown_document(buffer) && t == s
    } else if !s.buffers[buffer].parsed {
        r is Err && r->Err_0.is_not_parsed(buffer) && t == s
    } else {
        let language = s.buffers[buffer].language;
        &&& s.highlighters.contains_key(language) ==> t.highlighters == s.highlighters
        &&& t.highlighters.remove(language) == s.highlighters.remove(language)
        &&& s.highlighters.contains_key(language) ==> t.highlighters[language]
            == s.highlighters[language]
        &&& r is Ok <==> supported(language)
        &&& !supported(language) ==> r is Err && r->Err_0.is_unsupported_language(language)
        &&& r is Err ==> t.highlighters == s.highlighters
        &&& r is Ok ==> t.highlighters.contains_key(language)
        &&& r is Ok && !s.styles.contains_key(language) ==> r->Ok_0.len() == 0
        &&& r is Ok && s.styles.contains_key(language) ==> highlight_commands(
            r->Ok_0@,
            buffer,
            s.buffers[buffer].content,
            s.styles[language],
        )
    }
}

/// The commands of a highlighted document: the one that sets the ranges of
/// the query's captures over its content in the faces of its style table,
/// then a debug message exactly where the capture stream was cut short.
pub open spec fn highlight_commands(
    commands: Seq<String>,
    buffer: Seq<char>,
    content: Seq<u8>,
    styles: Map<Seq<char>, Seq<char>>,
) -> bool {
    let (rs, complete) = highlights_of(rust_captures(content), styles);
    &&& commands.len() == if complete {
        1int
    } else {
        2int
    }
    &&& commands[0]@ == command_text(Some(buffer), highlight_command(rs))
    &&& !complete ==> commands[1]@ == command_text(
        None,
        debug_command("capture stream error: "@ + buffer),
    )
}

/// The server's state: the session and the editor it sends commands to.
pub struct Server {
    config: Config,
    kakoune: Kakoune,
    parsers: Table<SyntaxParser>,
    buffers: Table<Buffer>,
    highlighters: Table<Highlighter>,
}

impl View for Server {
    type V = Session;

    closed spec fn view(&self) -> Session {
        Session {
            buffers: self.buffers.map().map_values(|b: Buffer| b@),
            parsers: self.parsers.map().dom(),
            highlighters: self.highlighters.map(),
            styles: self.config.view(),
        }
    }
}

impl Server {
    pub closed spec fn wf(&self) -> bool {
        &&& self.config.wf()
        &&& self.kakoune.wf()
        &&& self.parsers.wf()
        &&& self.buffers.wf()
        &&& self.highlighters.wf()
        &&& forall|l: Seq<char>| #[trigger] self.parsers.map().contains_key(l) ==> supported(l)
        &&& forall|l: Seq<char>| #[trigger] self.highlighters.map().contains_key(l) ==> supported(
            l,
        )
    }

    /// The name of the editor session that commands go to.
    pub closed spec fn session_name(&self) -> Seq<char> {
        self.kakoune.session_name()
    }

    /// Creates a server for an editor session, with its style tables.
    pub fn new(session: String, config: Config) -> (r: Server)
        requires
            config.wf(),
        ensures
            r.wf(),
            r.session_name() == session@,
            r@ == (Session {
                buffers: Map::empty(),
                parsers: Set::empty(),
                highlighters: Map::empty(),
                styles: config.view(),
            }),
    {
        let r = Server {
            config,
            kakoune: Kakoune::new(session),
            parsers: Table::new(),
            buffers: Table::new(),
            highlighters: Table::new(),
        };
        assert(r@.buffers =~= Map::<Seq<char>, BufferView>::empty());
        assert(r@.parsers =~= Set::<Seq<char>>::empty());
        assert(r@.highlighters =~= Map::<Seq<char>, Highlighter>::empty());
        r
    }

    /// The editor session that commands go to.
    pub fn kakoune(&self) -> (r: &Kakoune)
        ensures
            r.session_name() == self.session_name(),
    {
        &self.kakoune
    }

    /// Replaces the style tables.
    pub fn set_config(&mut self, config: Config)
        requires
            old(self).wf(),
            config.wf(),
        ensures
            final(self).wf(),
            final(self).session_name() == old(self).session_name(),
            final(self)@ == (Session { styles: config.view(), ..old(self)@ }),
    {
        self.config = config;
    }

    /// The number of languages that have a parser.
    pub fn parser_count(&self) -> (r: usize)
        requires
            self.wf(),
        ensures
            r == self@.parsers.len(),
    {
        self.parsers.len()
    }

    /// The number of languages that have a highlighter.
    pub fn highlighter_count(&self) -> (r: usize)
        requires
            self.wf(),
        ensures
            r == self@.highlighters.dom().len(),
    {
        self.highlighters.len()
    }

    /// Registers a document with its language.
    pub fn new_buffer(&mut self, buffer: String, language: String)
        requires
            old(self).wf(),
        ensures
            final(self).wf(),
            final(self).session_name() == old(self).session_name(),
            new_buffer_done(old(self)@, final(self)@, buffer@, language@),
    {
        let ghost b = buffer@;
        let ghost l = language@;
        let doc = Buffer::new(language, None, Vec::new());
        self.buffers.insert(buffer, doc);
        assert(self@.buffers =~= old(self)@.buffers.insert(
            b,
            BufferView { language: l, content: Seq::empty(), parsed: false },
        ));
    }

    /// Sets a document's language, dropping its tree.
    pub fn set_buffer_language(&mut self, buffer: &str, language: String) -> (r: Result<(), Error>)
        requires
            old(self).wf(),
        ensures
            final(self).wf(),
            final(self).session_name() == old(self).session_name(),
            set_language_done(old(self)@, final(self)@, buffer@, language@, r),
    {
        let ghost l = language@;
        match self.buffers.get_mut(buffer) {
            Some(doc) => {
                doc.language = language;
                match doc.tree.take() {
                    Some(source) => {
                        doc.content = source.into_content();
                    },
                    None => {},
                }
                proof {
                    assert(self@.buffers =~= old(self)@.buffers.insert(
                        buffer@,
                        BufferView {
                            language: l,
                            content: old(self)@.buffers[buffer@].content,
                            parsed: false,
                        },
                    ));
                }
                Ok(())
            },
            None => Err(Error::UnknownDocument { buffer: String::from_str(buffer) }),
        }
    }

    /// Makes the parser of a language if it has none.
    fn ensure_parser(&mut self, language: &str) -> (r: Result<(), Error>)
        requires
            old(self).wf(),
        ensures
            final(self).wf(),
            final(self).session_name() == old(self).session_name(),
            final(self)@.buffers == old(self)@.buffers,
            final(self)@.highlighters == old(self)@.highlighters,
            final(self)@.styles == old(self)@.styles,
            r is Ok ==> final(self)@.parsers == old(self)@.parsers.insert(language@),
            r is Err ==> final(self)@.parsers == old(self)@.parsers,
            old(self)@.parsers.contains(language@) ==> r is Ok && *final(self) == *old(self),
            r is Ok <==> supported(language@),
            !supported(language@) ==> r is Err && r->Err_0.is_unsupported_language(language@),
    {
        if self.parsers.contains(language) {
            assert(old(self)@.parsers.insert(language@) =~= old(self)@.parsers);
            return Ok(());
        }
        match SyntaxParser::new(language) {
            Ok(parser) => {
                self.parsers.insert(String::from_str(language), parser);
                assert(self@.parsers =~= old(self)@.parsers.insert(language@));
                assert forall|l: Seq<char>| #[trigger]
                    self.parsers.map().contains_key(l) implies supported(l) by {
                    if l != language@ {
                        assert(old(self).parsers.map().contains_key(l));
                    }
                }
                Ok(())
            },
            Err(e) => Err(e),
        }
    }

    /// Parses a document's new content, with the parser of its language.
    pub fn parse_buffer(&mut self, buffer: String, content: Vec<u8>) -> (r: Result<(), Error>)
        requires
            old(self).wf(),
        ensures
            final(self).wf(),
            final(self).session_name() == old(self).session_name(),
            parse_done(old(self)@, final(self)@, buffer@, content@, r),
    {
        let language = match self.buffers.get(buffer.as_str()) {
            Some(doc) => doc.language.clone(),
            None => {
                return Err(Error::UnknownDocument { buffer });
            },
        };
        match self.ensure_parser(language.as_str()) {
            Ok(()) => {},
            Err(e) => {
                return Err(e);
            },
        }
        let ghost mid = self@;
        let kept = slice_to_vec(content.as_slice());
        let tree = match self.parsers.get_mut(language.as_str()) {
            Some(parser) => parser.parse(content),
            None => {
                return Err(Error::UnsupportedLanguage { language });
            },
        };
        assert(self@.parsers =~= mid.parsers);
        match tree {
            Some(tree) => {
                let ghost b = buffer@;
                let ghost c = kept@;
                let ghost l = language@;
                self.buffers.insert(buffer, Buffer::new(language, Some(tree), kept));
                assert(self@.buffers =~= old(self)@.buffers.insert(
                    b,
                    BufferView { language: l, content: c, parsed: true },
                ));
                proof {
                    if old(self)@.parsers.contains(l) {
                        assert(old(self)@.parsers.insert(l) =~= old(self)@.parsers);
                    }
                }
                Ok(())
            },
            None => Err(Error::ParseFailure { buffer }),
        }
    }

    /// Makes the highlighter of a language if it has none.
    fn ensure_highlighter(&mut self, language: &str) -> (r: Result<(), Error>)
        requires
            old(self).wf(),
        ensures
            final(self).wf(),
            final(self).session_name() == old(self).session_name(),
            final(self)@.buffers == old(self)@.buffers,
            final(self)@.parsers == old(self)@.parsers,
            final(self)@.styles == old(self)@.styles,
            old(self)@.highlighters.contains_key(language@) ==> r is Ok && final(self)@
                == old(self)@,
            r is Ok ==> final(self)@.highlighters.contains_key(language@),
            r is Err ==> final(self)@ == old(self)@,
            final(self)@.highlighters.remove(language@) == old(self)@.highlighters.remove(
                language@,
            ),
            r is Ok <==> supported(language@),
            !supported(language@) ==> r is Err && r->Err_0.is_unsupported_language(language@),
    {
        if self.highlighters.contains(language) {
            return Ok(());
        }
        match Highlighter::new(language) {
            Ok(h) => {
                self.highlighters.insert(String::from_str(language), h);
                assert forall|l: Seq<char>| #[trigger]
                    self.highlighters.map().contains_key(l) implies supported(l) by {
                    if l != language@ {
                        assert(old(self).highlighters.map().contains_key(l));
                    }
                }
                assert(self@.highlighters.remove(language@) =~= old(self)@.highlighters.remove(
                    language@,
                ));
                Ok(())
            },
            Err(e) => Err(e),
        }
    }

    /// Highlights a parsed document: the commands that set its ranges.
    pub fn highlight(&mut self, buffer: &str) -> (r: Result<Vec<String>, Error>)
        requires
            old(self).wf(),
        ensures
            final(self).wf(),
            final(self).session_name() == old(self).session_name(),
            highlight_done(old(self)@, final(self)@, buffer@, r),
    {
        let language = match self.buffers.get(buffer) {
            Some(doc) => {
                if doc.tree.is_none() {
                    return Err(Error::NotParsed { buffer: String::from_str(buffer) });
                }
                doc.language.clone()
            },
            None => {
                return Err(Error::UnknownDocument { buffer: String::from_str(buffer) });
            },
        };
        match self.ensure_highlighter(language.as_str()) {
            Ok(()) => {},
            Err(e) => {
                return Err(e);
            },
        }
        let faces = match self.config.faces(language.as_str()) {
            Some(faces) => faces,
            None => {
                return Ok(Vec::new());
            },
        };
        let (highlighter, doc) = match (
            self.highlighters.get(language.as_str()),
            self.buffers.get(buffer),
        ) {
            (Some(h), Some(d)) => (h, d),
            _ => {
                return Ok(Vec::new());
            },
        };
        let tree = match &doc.tree {
            Some(tree) => tree,
            None => {
                return Ok(Vec::new());
            },
        };
        let highlights = highlighter.highlight(faces, tree);
        let mut commands = Vec::new();
        let set_ranges = self.kakoune.highlight(buffer, &highlights.ranges);
        let ghost rs = range_spans(highlights.ranges@);
        commands.push(set_ranges);
        assert(commands@[0]@ == command_text(Some(buffer@), highlight_command(rs)));
        if !highlights.complete {
            let message = Error::CaptureStreamError { buffer: String::from_str(buffer) }.message();
            commands.push(Kakoune::debug(message.as_str()));
            assert(commands@[0]@ == command_text(Some(buffer@), highlight_command(rs)));
        }
        assert(highlight_commands(
            commands@,
            buffer@,
            self@.buffers[buffer@].content,
            self@.styles[language@],
        ));
        Ok(commands)
    }

    /// Handles one request.
    pub fn handle_request(&mut self, request: Request) -> (r: Result<Response, Error>)
        requires
            old(self).wf(),
        ensures
            final(self).wf(),
            final(self).session_name() == old(self).session_name(),
            match request {
                Request::ReloadConfig { config } => r == Ok::<Response, Error>(
                    Response::ReloadConfig { config },
                ) && final(self)@ == old(self)@,
                Request::NewBuffer { buffer, language } => r == Ok::<Response, Error>(
                    Response::Done,
                ) && new_buffer_done(old(self)@, final(self)@, buffer@, language@),
                Request::SetLanguage { buffer, language } => set_language_done(
                    old(self)@,
                    final(self)@,
                    buffer@,
                    language@,
                    match r {
                        Ok(_) => Ok(()),
                        Err(e) => Err(e),
                    },
                ) && (r is Ok ==> r == Ok::<Response, Error>(Response::Done)),
                Request::ParseBuffer { buffer, content } => parse_done(
                    old(self)@,
                    final(self)@,
                    buffer@,
                    content@,
                    match r {
                        Ok(_) => Ok(()),
                        Err(e) => Err(e),
                    },
                ) && (r is Ok ==> r == Ok::<Response, Error>(Response::Done)),
                Request::Highlight { buffer } => highlight_done(
                    old(self)@,
                    final(self)@,
                    buffer@,
                    match r {
                        Ok(Response::Commands(c)) => Ok(c),
                        Ok(_) => Err(Error::MalformedRequest),
                        Err(e) => Err(e),
                    },
                ),
            },
    {
        match request {
            Request::ReloadConfig { config } => Ok(Response::ReloadConfig { config }),
            Request::NewBuffer { buffer, language } => {
                self.new_buffer(buffer, language);
                Ok(Response::Done)
            },
            Request::SetLanguage { buffer, language } => {
                match self.set_buffer_language(buffer.as_str(), language) {
                    Ok(()) => Ok(Response::Done),
                    Err(e) => Err(e),
                }
            },
            Request::ParseBuffer { buffer, content } => match self.parse_buffer(buffer, content) {
                Ok(()) => Ok(Response::Done),
                Err(e) => Err(e),
            },
            Request::Highlight { buffer } => match self.highlight(buffer.as_str()) {
                Ok(commands) => Ok(Response::Commands(commands)),
                Err(e) => Err(e),
            },
        }
    }
}

} // verus!
