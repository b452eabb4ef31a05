//! Highlighting a document: the query's captures, styled by the language's
//! faces, resolved into ranges.

use vstd::prelude::*;

use crate::config::Faces;
use crate::error::Error;
use crate::languages::{supported, Lang};
use crate::range::{capture_spans, range_spans, Capture, Point, RangeSpec, Span};
use crate::resolve::{
    lemma_well_formed_len_prefix, resolve, resolved_prefix, well_formed, well_formed_len,
};
use crate::resolve_lemmas::{faces_within, lemma_resolved_faces, lemma_resolved_ordered, ordered};
use crate::tree::{query_captures, HighlightQuery, ParsedSource};
use crate::ts::{rust_captures, RawCapture};

verus! {

/// A capture as the engine reports it: 0-indexed start and end rows and
/// columns, and its name.
pub type CaptureView = (usize, usize, usize, usize, Seq<char>);

/// A raw capture's points can be made 1-indexed.
pub open spec fn usable(c: CaptureView) -> bool {
    &&& c.0 < usize::MAX
    &&& c.1 < usize::MAX
    &&& c.2 < usize::MAX
    &&& c.3 < usize::MAX
}

/// A usable raw capture with its points made 1-indexed, in `face`.
pub open spec fn capture_span(c: CaptureView, face: Seq<char>) -> Span {
    Span {
        start: Point { row: (c.0 + 1) as usize, column: (c.1 + 1) as usize },
        end: Point { row: (c.2 + 1) as usize, column: (c.3 + 1) as usize },
        face,
    }
}

/// The styled captures of a raw stream, and whether all of it was usable:
/// captures whose name has no face are dropped, and the stream stops at the
/// first capture that is not usable.
pub open spec fn styled(raw: Seq<CaptureView>, faces: Map<Seq<char>, Seq<char>>) -> (
    Seq<Span>,
    bool,
)
    decreases raw.len(),
{
    if raw.len() == 0 {
        (Seq::empty(), true)
    } else {
        let (prev, ok) = styled(raw.drop_last(), faces);
        let c = raw.last();
        if !ok || !usable(c) {
            (prev, false)
        } else if !faces.contains_key(c.4) {
            (prev, true)
        } else {
            (prev.push(capture_span(c, faces[c.4])), true)
        }
    }
}

/// The ranges a raw capture stream gives in `faces`, and whether the stream
/// was used whole.
pub open spec fn highlights_of(raw: Seq<CaptureView>, faces: Map<Seq<char>, Seq<char>>) -> (
    Seq<Span>,
    bool,
) {
    let (caps, ok) = styled(raw, faces);
    (resolved_prefix(caps), ok && well_formed(caps))
}

/// The views of raw captures.
pub open spec fn raw_views(raw: Seq<RawCapture>) -> Seq<CaptureView> {
    raw.map_values(|c: RawCapture| c@)
}

/// Every styled capture has a face of the table.
proof fn lemma_styled_faces(raw: Seq<CaptureView>, faces: Map<Seq<char>, Seq<char>>)
    ensures
        faces_within(styled(raw, faces).0, faces.values()),
    decreases raw.len(),
{
    if raw.len() > 0 {
        lemma_styled_faces(raw.drop_last(), faces);
        let (prev, ok) = styled(raw.drop_last(), faces);
        let c = raw.last();
        if ok && usable(c) && faces.contains_key(c.4) {
            let x = capture_span(c, faces[c.4]);
            assert(faces.values().contains(x.face));
            let next = prev.push(x);
            assert forall|i: int| 0 <= i < next.len() implies faces.values().contains(
                #[trigger] next[i].face,
            ) by {
                if i < prev.len() {
                    assert(next[i] == prev[i]);
                }
            }
        }
    }
}

/// The ranges of a raw stream are in order, disjoint and in faces of the
/// table.
pub proof fn lemma_highlights_ordered(raw: Seq<CaptureView>, faces: Map<Seq<char>, Seq<char>>)
    ensures
        ordered(highlights_of(raw, faces).0),
        faces_within(highlights_of(raw, faces).0, faces.values()),
{
    let caps = styled(raw, faces).0;
    lemma_well_formed_len_prefix(caps);
    let taken = caps.take(well_formed_len(caps) as int);
    lemma_resolved_ordered(taken);
    lemma_styled_faces(raw, faces);
    assert forall|i: int| 0 <= i < taken.len() implies faces.values().contains(
        #[trigger] taken[i].face,
    ) by {
        assert(taken[i] == caps[i]);
    }
    lemma_resolved_faces(taken, faces.values());
}

/// The captures of a raw stream that have a face, with their points made
/// 1-indexed; `false` where the stream stopped at a capture it could not use.
pub fn styled_captures(raw: &Vec<RawCapture>, faces: &Faces) -> (r: (Vec<Capture>, bool))
    requires
        faces.wf(),
    ensures
        (capture_spans(r.0@), r.1) == styled(raw_views(raw@), faces.view()),
{
    let ghost rv = raw_views(raw@);
    let mut out: Vec<Capture> = Vec::new();
    let mut ok = true;
    let mut i: usize = 0;
    assert(rv.take(0) =~= Seq::<CaptureView>::empty());
    assert(capture_spans(out@) =~= Seq::<Span>::empty());
    while i < raw.len()
        invariant
            i <= raw.len(),
            faces.wf(),
            rv == raw_views(raw@),
            (capture_spans(out@), ok) == styled(rv.take(i as int), faces.view()),
        decreases raw.len() - i,
    {
        let c = &raw[i];
        assert(rv.take(i + 1).drop_last() =~= rv.take(i as int));
        assert(rv.take(i + 1).last() == c@);
        if ok {
            let start = Point::one_indexed(c.start_row, c.start_column);
            let end = Point::one_indexed(c.end_row, c.end_column);
            if start.is_some() && end.is_some() {
                match faces.get(c.name.as_str()) {
                    Some(face) => {
                        let ghost before = capture_spans(out@);
                        out.push(
                            Capture { start: start.unwrap(), end: end.unwrap(), face: face.clone() },
                        );
                        assert(capture_spans(out@) =~= before.push(capture_span(c@, face@)));
                    },
                    None => {},
                }
            } else {
                ok = false;
            }
        }
        i = i + 1;
    }
    assert(rv.take(raw.len() as int) =~= rv);
    (out, ok)
}

/// The ranges of a document, and whether the capture stream was used whole.
#[derive(Clone, Debug, PartialEq, Eq)]
pub struct Highlights {
    pub ranges: Vec<RangeSpec>,
    pub complete: bool,
}

/// The ranges of a raw capture stream: its styled captures resolved, up to
/// the first capture that could not be used.
pub fn highlights_from(raw: &Vec<RawCapture>, faces: &Faces) -> (r: Highlights)
    requires
        faces.wf(),
    ensures
        (range_spans(r.ranges@), r.complete) == highlights_of(raw_views(raw@), faces.view()),
{
    let (captures, ok) = styled_captures(raw, faces);
    let resolution = resolve(&captures);
    Highlights { ranges: resolution.ranges, complete: ok && resolution.malformed.is_none() }
}

/// The compiled highlight query of a language.
pub struct Highlighter {
    query: HighlightQuery,
}

impl Highlighter {
    /// Creates the highlighter of an editor file type: one exactly for a
    /// supported language.
    pub fn new(language: &str) -> (r: Result<Highlighter, Error>)
        ensures
            r is Ok <==> supported(language@),
            !supported(language@) ==> r is Err && r->Err_0.is_unsupported_language(language@),
    {
        match Lang::try_from(language) {
            Ok(l) => match l.into_highlight_query() {
                Some(query) => Ok(Highlighter { query }),
                None => Err(Error::UnsupportedLanguage { language: String::from_str(language) }),
            },
            Err(e) => Err(e),
        }
    }

    /// The ranges of a parsed document in the faces of its language: those
    /// of the query's captures over the document, which are in order,
    /// disjoint and in faces of the table.
    pub fn highlight(&self, faces: &Faces, source: &ParsedSource) -> (r: Highlights)
        requires
            faces.wf(),
        ensures
            (range_spans(r.ranges@), r.complete) == highlights_of(
                rust_captures(source.content_view()),
                faces.view(),
            ),
            ordered(range_spans(r.ranges@)),
            faces_within(range_spans(r.ranges@), faces.view().values()),
    {
        let raw = query_captures(&self.query, source);
        let r = highlights_from(&raw, faces);
        proof {
            lemma_highlights_ordered(raw_views(raw@), faces.view());
        }
        r
    }
}

} // verus!
