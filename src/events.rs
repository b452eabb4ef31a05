//! Ranges from a stream of highlight events: where a highlight starts and
//! ends, and which bytes of the source lie in between.

use vstd::prelude::*;

use crate::text::{decimal, push_decimal};

verus! {

/// A location in a source: a line and a column.
#[derive(Clone, Copy, Debug, Default, PartialEq, Eq, Structural)]
pub struct Loc {
    pub line: usize,
    pub col: usize,
}

impl Loc {
    /// The same location, 1-indexed as the editor counts.
    pub fn one_idx(self) -> (r: Loc)
        requires
            self.line < usize::MAX,
            self.col < usize::MAX,
        ensures
            r == (Loc { line: (self.line + 1) as usize, col: (self.col + 1) as usize }),
    {
        Loc { line: self.line + 1, col: self.col + 1 }
    }
}

/// A step of highlighting a source.
#[derive(Clone, Copy, Debug, PartialEq, Eq, Structural)]
pub enum HighlightEvent {
    /// The source bytes up to `end` (exclusive), in the current highlight.
    Source { start: usize, end: usize },
    /// A highlight, by index of its name, starts.
    HighlightStart(usize),
    /// The innermost highlight ends.
    HighlightEnd,
    /// The highlighter reported a failure for this step.
    Error,
}

/// A highlighted range: 1-indexed start and end (inclusive), and the index of
/// its highlight.
#[derive(Clone, Copy, Debug, PartialEq, Eq, Structural)]
pub struct Range {
    pub start: Loc,
    pub end: Loc,
    pub highlight: usize,
}

/// The ranges of a stream of highlight events, and whether the stream ran to
/// its end.
#[derive(Clone, Debug, PartialEq, Eq)]
pub struct EventRanges {
    pub ranges: Vec<Range>,
    pub complete: bool,
}

/// The 0-indexed location of byte `offset` of `content`.
pub open spec fn loc_at(content: Seq<u8>, offset: nat) -> Loc
    decreases offset,
{
    if offset == 0 {
        Loc { line: 0, col: 0 }
    } else {
        let p = loc_at(content, (offset - 1) as nat);
        if content[offset - 1] == 10u8 {
            Loc { line: (p.line + 1) as usize, col: 0 }
        } else {
            Loc { line: p.line, col: (p.col + 1) as usize }
        }
    }
}

proof fn lemma_loc_bounded(content: Seq<u8>, offset: nat)
    requires
        offset <= usize::MAX,
    ensures
        loc_at(content, offset).line <= offset,
        loc_at(content, offset).col <= offset,
    decreases offset,
{
    if offset > 0 {
        lemma_loc_bounded(content, (offset - 1) as nat);
    }
}

/// Where the events have brought the reader: the offset reached, the
/// highlights open (innermost last), and the ranges found.
pub struct EventState {
    pub offset: nat,
    pub highlights: Seq<usize>,
    pub ranges: Seq<Range>,
}

pub open spec fn one_indexed(l: Loc) -> Loc {
    Loc { line: (l.line + 1) as usize, col: (l.col + 1) as usize }
}

/// A source event can be taken: its end lies in the content.
pub open spec fn source_fits(content: Seq<u8>, end: usize) -> bool {
    end <= content.len() && end < usize::MAX
}

/// Takes in one event.
pub open spec fn event_step(content: Seq<u8>, st: EventState, e: HighlightEvent) -> EventState {
    match e {
        HighlightEvent::Source { end, .. } => {
            let start = loc_at(content, st.offset);
            let last = if st.offset < end {
                loc_at(content, (end - 1) as nat)
            } else {
                start
            };
            let offset = if st.offset < end {
                end as nat
            } else {
                st.offset
            };
            EventState {
                offset,
                highlights: st.highlights,
                ranges: if st.highlights.len() > 0 {
                    st.ranges.push(
                        Range {
                            start: one_indexed(start),
                            end: one_indexed(last),
                            highlight: st.highlights.last(),
                        },
                    )
                } else {
                    st.ranges
                },
            }
        },
        HighlightEvent::HighlightStart(h) => EventState {
            highlights: st.highlights.push(h),
            ..st
        },
        HighlightEvent::HighlightEnd => EventState {
            highlights: if st.highlights.len() > 0 {
                st.highlights.drop_last()
            } else {
                st.highlights
            },
            ..st
        },
        HighlightEvent::Error => st,
    }
}

/// An event stops the stream: a failure reported by the highlighter, or a
/// source event past the content.
pub open spec fn stops(content: Seq<u8>, e: HighlightEvent) -> bool {
    ||| e is Error
    ||| e matches HighlightEvent::Source { end, .. } && !source_fits(content, end)
}

/// The state after a stream of events, and whether the stream ran to its
/// end; it stops at the first event that stops it.
pub open spec fn run_events(content: Seq<u8>, es: Seq<HighlightEvent>) -> (EventState, bool)
    decreases es.len(),
{
    if es.len() == 0 {
        (EventState { offset: 0, highlights: Seq::empty(), ranges: Seq::empty() }, true)
    } else {
        let (st, ok) = run_events(content, es.drop_last());
        if !ok || stops(content, es.last()) {
            (st, false)
        } else {
            (event_step(content, st, es.last()), true)
        }
    }
}

/// Reads a source byte by byte, keeping the location of its offset.
struct Cursor {
    offset: usize,
    loc: Loc,
    highlights: Vec<usize>,
}

impl Cursor {
    spec fn state_ok(&self, content: Seq<u8>) -> bool {
        &&& self.offset <= content.len()
        &&& self.offset < usize::MAX
        &&& self.loc == loc_at(content, self.offset as nat)
    }

    /// Creates a new `Cursor`, at the start of the source.
    fn new() -> (r: Cursor)
        ensures
            r.offset == 0,
            r.loc == loc_at(Seq::empty(), 0),
            r.highlights@ == Seq::<usize>::empty(),
    {
        Cursor { offset: 0, loc: Loc { line: 0, col: 0 }, highlights: Vec::new() }
    }

    /// Advances to byte `new_offset`, returning the location of the last
    /// byte passed, or the current one where none is.
    fn advance(&mut self, content: &[u8], new_offset: usize) -> (r: Loc)
        requires
            old(self).state_ok(content@),
            new_offset <= content@.len(),
            new_offset < usize::MAX,
        ensures
            final(self).state_ok(content@),
            final(self).highlights == old(self).highlights,
            final(self).offset == if old(self).offset < new_offset {
                new_offset
            } else {
                old(self).offset
            },
            r == if old(self).offset < new_offset {
                loc_at(content@, (new_offset - 1) as nat)
            } else {
                old(self).loc
            },
    {
        let mut prev_loc = self.loc;
        while self.offset < new_offset
            invariant
                self.state_ok(content@),
                new_offset <= content@.len(),
                new_offset < usize::MAX,
                self.highlights == old(self).highlights,
                old(self).offset <= self.offset,
                self.offset <= old(self).offset || self.offset <= new_offset,
                prev_loc == if old(self).offset < self.offset {
                    loc_at(content@, (self.offset - 1) as nat)
                } else {
                    old(self).loc
                },
            decreases new_offset - self.offset,
        {
            let c = content[self.offset];
            proof {
                lemma_loc_bounded(content@, self.offset as nat);
            }
            prev_loc = self.loc;
            if c == 10u8 {
                self.loc.line = self.loc.line + 1;
                self.loc.col = 0;
            } else {
                self.loc.col = self.loc.col + 1;
            }
            self.offset = self.offset + 1;
        }
        prev_loc
    }

    /// Takes in one event, returning the range it closes, if any.
    fn process_event(&mut self, content: &[u8], event: HighlightEvent) -> (r: Option<Range>)
        requires
            old(self).state_ok(content@),
            !stops(content@, event),
        ensures
            final(self).state_ok(content@),
            ({
                let before = EventState {
                    offset: old(self).offset as nat,
                    highlights: old(self).highlights@,
                    ranges: Seq::empty(),
                };
                let after = event_step(content@, before, event);
                &&& final(self).offset == after.offset
                &&& final(self).highlights@ == after.highlights
                &&& after.ranges == match r {
                    Some(range) => seq![range],
                    None => Seq::<Range>::empty(),
                }
            }),
    {
        match event {
            HighlightEvent::Source { end, .. } => {
                let start = self.loc;
                proof {
                    lemma_loc_bounded(content@, self.offset as nat);
                    if end > 0 {
                        lemma_loc_bounded(content@, (end - 1) as nat);
                    }
                }
                let last = self.advance(content, end);
                if self.highlights.len() > 0 {
                    let h = self.highlights[self.highlights.len() - 1];
                    let range = Range { start: start.one_idx(), end: last.one_idx(), highlight: h };
                    assert(seq![range] =~= Seq::<Range>::empty().push(range));
                    Some(range)
                } else {
                    None
                }
            },
            HighlightEvent::HighlightStart(h) => {
                self.highlights.push(h);
                None
            },
            HighlightEvent::HighlightEnd => {
                let _ = self.highlights.pop();
                None
            },
            HighlightEvent::Error => None,
        }
    }
}

impl Range {
    /// The ranges of a stream of highlight events over `content`: one for
    /// each stretch of source inside a highlight, in the innermost one. A
    /// failure of the highlighter, or a source event past the end of the
    /// content, ends the stream: the ranges before it are kept, and the
    /// result says the stream was cut short.
    pub fn from_events(content: &[u8], events: &Vec<HighlightEvent>) -> (r: EventRanges)
        ensures
            r.ranges@ == run_events(content@, events@).0.ranges,
            r.complete == run_events(content@, events@).1,
    {
        let mut ranges: Vec<Range> = Vec::new();
        let mut cursor = Cursor::new();
        let mut ok = true;
        let mut i: usize = 0;
        assert(events@.take(0) =~= Seq::<HighlightEvent>::empty());
        while i < events.len()
            invariant
                i <= events.len(),
                cursor.state_ok(content@),
                ({
                    let (st, done) = run_events(content@, events@.take(i as int));
                    &&& done == ok
                    &&& st.offset == cursor.offset
                    &&& st.highlights == cursor.highlights@
                    &&& st.ranges == ranges@
                }),
            decreases events.len() - i,
        {
            let event = events[i];
            assert(events@.take(i + 1).drop_last() =~= events@.take(i as int));
            assert(events@.take(i + 1).last() == event);
            if ok {
                let fits = match event {
                    HighlightEvent::Source { end, .. } => end <= content.len() && end < usize::MAX,
                    HighlightEvent::Error => false,
                    _ => true,
                };
                if fits {
                    let ghost before = ranges@;
                    match cursor.process_event(content, event) {
                        Some(range) => {
                            ranges.push(range);
                        },
                        None => {},
                    }
                    proof {
                        let (st, _) = run_events(content@, events@.take(i as int));
                        let mid = EventState {
                            offset: st.offset,
                            highlights: st.highlights,
                            ranges: Seq::empty(),
                        };
                        let a = event_step(content@, mid, event);
                        let b = event_step(content@, st, event);
                        assert(b.offset == a.offset && b.highlights == a.highlights);
                        assert(b.ranges =~= st.ranges + a.ranges);
                        assert(ranges@ =~= before + a.ranges);
                    }
                } else {
                    ok = false;
                }
            }
            i = i + 1;
        }
        assert(events@.take(events.len() as int) =~= events@);
        EventRanges { ranges, complete: ok }
    }

    /// The range as the editor reads it, `line.col,line.col|face`; `None`
    /// where the highlight has no face.
    pub fn to_string(&self) -> (r: Option<String>)
        ensures
            r is Some <==> face_text(self.highlight as nat) is Some,
            r is Some ==> r->Some_0@ == decimal(self.start.line as nat) + "."@ + decimal(
                self.start.col as nat,
            ) + ","@ + decimal(self.end.line as nat) + "."@ + decimal(self.end.col as nat) + "|"@
                + face_text(self.highlight as nat)->Some_0,
    {
        match face_name(self.highlight) {
            Some(face) => {
                let mut s = String::new();
                push_decimal(&mut s, self.start.line);
                s.append(".");
                push_decimal(&mut s, self.start.col);
                s.append(",");
                push_decimal(&mut s, self.end.line);
                s.append(".");
                push_decimal(&mut s, self.end.col);
                s.append("|");
                s.append(face);
                Some(s)
            },
            None => None,
        }
    }
}

/// The editor face of each highlight index.
pub open spec fn face_text(h: nat) -> Option<Seq<char>> {
    if h == 0 {
        Some("meta"@)
    } else if h == 1 {
        Some("value"@)
    } else if h == 2 {
        Some("comment"@)
    } else if h == 3 {
        Some("function"@)
    } else if h == 4 {
        Some("function"@)
    } else if h == 5 {
        Some("meta"@)
    } else if h == 6 {
        Some("keyword"@)
    } else if h == 7 {
        Some("operator"@)
    } else if h == 8 {
        Some("identifier"@)
    } else if h == 9 {
        Some("string"@)
    } else if h == 10 {
        Some("red"@)
    } else if h == 11 {
        Some("red"@)
    } else if h == 12 {
        Some("type"@)
    } else if h == 13 {
        Some("type"@)
    } else if h == 14 {
        Some("variable"@)
    } else if h == 15 {
        Some("value"@)
    } else if h == 16 {
        Some("variable"@)
    } else if h == 17 {
        Some("value"@)
    } else {
        None
    }
}

/// The editor face of a highlight index.
pub fn face_name(h: usize) -> (r: Option<&'static str>)
    ensures
        r is Some <==> face_text(h as nat) is Some,
        r is Some ==> r->Some_0@ == face_text(h as nat)->Some_0,
{
    if h == 0 {
        Some("meta")
    } else if h == 1 {
        Some("value")
    } else if h == 2 {
        Some("comment")
    } else if h == 3 {
        Some("function")
    } else if h == 4 {
        Some("function")
    } else if h == 5 {
        Some("meta")
    } else if h == 6 {
        Some("keyword")
    } else if h == 7 {
        Some("operator")
    } else if h == 8 {
        Some("identifier")
    } else if h == 9 {
        Some("string")
    } else if h == 10 {
        Some("red")
    } else if h == 11 {
        Some("red")
    } else if h == 12 {
        Some("type")
    } else if h == 13 {
        Some("type")
    } else if h == 14 {
        Some("variable")
    } else if h == 15 {
        Some("value")
    } else if h == 16 {
        Some("variable")
    } else if h == 17 {
        Some("value")
    } else {
        None
    }
}

} // verus!
