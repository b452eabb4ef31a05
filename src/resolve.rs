//! Flattening of nested and overlapping captures into disjoint styled ranges.
//!
//! The resolver keeps a stack of active ranges, innermost on top, and a
//! cursor: the first point whose style is not yet emitted. The most recently
//! pushed range that still covers a point gives that point its face.

use vstd::prelude::*;

use crate::range::{capture_spans, range_spans, Capture, Point, RangeSpec, Span};
use crate::resolve_lemmas::{
    face_at, ingested, lemma_last_capture_wins, lemma_resolved_ordered, ordered,
};

verus! {

/// A capture has usable points: both columns are 1-indexed.
pub open spec fn valid_capture(c: Span) -> bool {
    c.start.column >= 1 && c.end.column >= 1
}

/// A capture covers nothing: its exclusive end is not after its start.
pub open spec fn is_empty(c: Span) -> bool {
    c.end.not_after(c.start)
}

/// The capture with its end made inclusive.
pub open spec fn ingest(c: Span) -> Span {
    Span { start: c.start, end: c.end.spec_prev(), face: c.face }
}

/// A stream that the resolver takes whole: every capture has usable points,
/// and the captures come in non-decreasing order of start.
pub open spec fn well_formed(cs: Seq<Span>) -> bool {
    &&& forall|i: int| 0 <= i < cs.len() ==> valid_capture(#[trigger] cs[i])
    &&& forall|i: int, j: int|
        #![trigger cs[i], cs[j]]
        0 <= i < j < cs.len() ==> cs[i].start.not_after(
            cs[j].start,
        )
}

/// The resolver's state: the active ranges (bottom first), the cursor, and
/// the ranges emitted so far.
pub struct ResolveState {
    pub stack: Seq<Span>,
    pub cursor: Point,
    pub out: Seq<Span>,
}

/// Emits what lies before `until` from `cursor` on: the active ranges that
/// end before it are popped with their tails, and the part of the range left
/// on top that precedes `until` is emitted in its face.
pub open spec fn flush(stack: Seq<Span>, cursor: Point, until: Point, out: Seq<Span>) -> ResolveState
    decreases stack.len(),
{
    if stack.len() == 0 {
        ResolveState { stack, cursor: until, out }
    } else {
        let top = stack.last();
        if top.end.before(until) {
            flush(
                stack.drop_last(),
                top.end.spec_next(),
                until,
                out.push(Span { start: cursor, end: top.end, face: top.face }),
            )
        } else if cursor.before(until) {
            ResolveState {
                stack,
                cursor: until,
                out: out.push(Span { start: cursor, end: until.spec_prev(), face: top.face }),
            }
        } else {
            ResolveState { stack, cursor: until, out }
        }
    }
}

/// Pops the active ranges on top of the stack that end no later than `end`:
/// a range pushed now with that end shadows what is left of them.
pub open spec fn shadow(stack: Seq<Span>, end: Point) -> Seq<Span>
    decreases stack.len(),
{
    if stack.len() > 0 && stack.last().end.not_after(end) {
        shadow(stack.drop_last(), end)
    } else {
        stack
    }
}

/// Takes in one non-empty capture, its end already inclusive.
pub open spec fn step(st: ResolveState, c: Span) -> ResolveState {
    let f = flush(st.stack, st.cursor, c.start, st.out);
    ResolveState { stack: shadow(f.stack, c.end).push(c), cursor: c.start, out: f.out }
}

pub open spec fn initial() -> ResolveState {
    ResolveState { stack: Seq::empty(), cursor: Point { row: 0, column: 0 }, out: Seq::empty() }
}

/// The state after a stream of captures; empty captures are passed over.
pub open spec fn run(cs: Seq<Span>) -> ResolveState
    decreases cs.len(),
{
    if cs.len() == 0 {
        initial()
    } else {
        let st = run(cs.drop_last());
        if is_empty(cs.last()) {
            st
        } else {
            step(st, ingest(cs.last()))
        }
    }
}

/// Emits the tails of the active ranges, from the top down.
pub open spec fn drain(stack: Seq<Span>, cursor: Point, out: Seq<Span>) -> Seq<Span>
    decreases stack.len(),
{
    if stack.len() == 0 {
        out
    } else {
        let top = stack.last();
        drain(
            stack.drop_last(),
            top.end.spec_next(),
            out.push(Span { start: cursor, end: top.end, face: top.face }),
        )
    }
}

/// The ranges that a stream of captures resolves to.
pub open spec fn resolved(cs: Seq<Span>) -> Seq<Span> {
    let st = run(cs);
    drain(st.stack, st.cursor, st.out)
}

/// The length of the longest well-formed prefix of a stream.
pub open spec fn well_formed_len(cs: Seq<Span>) -> nat
    decreases cs.len(),
{
    if cs.len() == 0 || well_formed(cs) {
        cs.len()
    } else {
        well_formed_len(cs.drop_last())
    }
}

/// The ranges of a stream up to its first malformed capture.
pub open spec fn resolved_prefix(cs: Seq<Span>) -> Seq<Span> {
    resolved(cs.take(well_formed_len(cs) as int))
}

/// A prefix of a well-formed stream is well formed.
pub proof fn lemma_well_formed_prefix(cs: Seq<Span>, n: int)
    requires
        well_formed(cs),
        0 <= n <= cs.len(),
    ensures
        well_formed(cs.take(n)),
{
    let t = cs.take(n);
    assert forall|i: int| 0 <= i < t.len() implies valid_capture(#[trigger] t[i]) by {
        assert(t[i] == cs[i]);
    }
    assert forall|i: int, j: int|
        #![trigger t[i], t[j]]
        0 <= i < j < t.len() implies t[i].start.not_after(
        t[j].start,
    ) by {
        assert(t[i] == cs[i] && t[j] == cs[j]);
    }
}

/// A well-formed prefix stays well formed with one more usable capture that
/// starts no earlier than any before it.
proof fn lemma_extend_well_formed(cs: Seq<Span>, i: int)
    requires
        0 <= i < cs.len(),
        well_formed(cs.take(i)),
        valid_capture(cs[i]),
        forall|k: int| 0 <= k < i ==> (#[trigger] cs[k]).start.not_after(cs[i].start),
    ensures
        well_formed(cs.take(i + 1)),
{
    let t = cs.take(i + 1);
    assert forall|a: int| 0 <= a < t.len() implies valid_capture(#[trigger] t[a]) by {
        assert(t[a] == cs[a]);
        if a < i {
            assert(cs.take(i)[a] == cs[a]);
        }
    }
    assert forall|a: int, b: int|
        #![trigger t[a], t[b]]
        0 <= a < b < t.len() implies t[a].start.not_after(t[b].start) by {
        assert(t[a] == cs[a] && t[b] == cs[b]);
        if b < i {
            assert(cs.take(i)[a] == cs[a] && cs.take(i)[b] == cs[b]);
        }
    }
}

/// The longest well-formed prefix is the one that cannot be extended.
pub proof fn lemma_well_formed_len(cs: Seq<Span>, i: int)
    requires
        0 <= i <= cs.len(),
        well_formed(cs.take(i)),
        i < cs.len() ==> !well_formed(cs.take(i + 1)),
    ensures
        well_formed_len(cs) == i,
    decreases cs.len(),
{
    if cs.len() > 0 {
        if well_formed(cs) {
            if i < cs.len() {
                lemma_well_formed_prefix(cs, i + 1);
            }
        } else {
            if i == cs.len() {
                assert(cs.take(i) =~= cs);
            }
            let d = cs.drop_last();
            assert(d.take(i) =~= cs.take(i));
            if i < d.len() {
                assert(d.take(i + 1) =~= cs.take(i + 1));
            }
            lemma_well_formed_len(d, i);
        }
    } else {
        assert(cs.take(i) =~= cs);
    }
}

/// The longest well-formed prefix is well formed.
pub proof fn lemma_well_formed_len_prefix(cs: Seq<Span>)
    ensures
        well_formed_len(cs) <= cs.len(),
        well_formed(cs.take(well_formed_len(cs) as int)),
    decreases cs.len(),
{
    if cs.len() == 0 || well_formed(cs) {
        assert(cs.take(cs.len() as int) =~= cs);
    } else {
        let d = cs.drop_last();
        lemma_well_formed_len_prefix(d);
        assert(d.take(well_formed_len(d) as int) =~= cs.take(well_formed_len(d) as int));
    }
}

/// The outcome of resolving a capture stream.
#[derive(Clone, Debug, PartialEq, Eq)]
pub struct Resolution {
    /// The styled ranges, in order.
    pub ranges: Vec<RangeSpec>,
    /// The index of the first malformed capture, where the stream stopped.
    pub malformed: Option<usize>,
}

/// Every active range has an end whose next point can be formed.
spec fn stack_bounded(stack: Seq<RangeSpec>) -> bool {
    forall|k: int| 0 <= k < stack.len() ==> (#[trigger] stack[k]).end.column < usize::MAX
}

/// Resolves a stream of captures into disjoint styled ranges.
///
/// The stream is taken up to its first malformed capture: one with a column
/// of 0, or one that starts before an earlier one. The
/// ranges are those of the part before it, and its index is reported.
pub fn resolve(captures: &Vec<Capture>) -> (r: Resolution)
    ensures
        range_spans(r.ranges@) == resolved_prefix(capture_spans(captures@)),
        r.malformed is None <==> well_formed(capture_spans(captures@)),
        ordered(range_spans(r.ranges@)),
        forall|p: Point| #[trigger]
            face_at(range_spans(r.ranges@), p) == face_at(
                ingested(
                    capture_spans(captures@).take(
                        well_formed_len(capture_spans(captures@)) as int,
                    ),
                ),
                p,
            ),
        match r.malformed {
            None => {
                &&& well_formed(capture_spans(captures@))
                &&& range_spans(r.ranges@) == resolved(capture_spans(captures@))
            },
            Some(i) => {
                &&& i < captures.len()
                &&& well_formed(capture_spans(captures@).take(i as int))
                &&& !well_formed(capture_spans(captures@).take(i + 1))
                &&& range_spans(r.ranges@) == resolved(capture_spans(captures@).take(i as int))
            },
        },
{
    let ghost cs = capture_spans(captures@);
    let mut stack: Vec<RangeSpec> = Vec::new();
    let mut cursor = Point { row: 0, column: 0 };
    let mut out: Vec<RangeSpec> = Vec::new();
    let mut last_start: Option<Point> = None;
    let ghost mut last_k: int = 0;
    let mut malformed: Option<usize> = None;
    let mut i: usize = 0;
    proof {
        assert(cs.take(0) =~= Seq::<Span>::empty());
        assert(range_spans(stack@) =~= Seq::<Span>::empty());
        assert(range_spans(out@) =~= Seq::<Span>::empty());
    }
    while i < captures.len() && malformed.is_none()
        invariant
            i <= captures.len(),
            cs == capture_spans(captures@),
            cs.len() == captures.len(),
            well_formed(cs.take(i as int)),
            run(cs.take(i as int)) == (ResolveState {
                stack: range_spans(stack@),
                cursor,
                out: range_spans(out@),
            }),
            stack_bounded(stack@),
            match malformed {
                None => true,
                Some(j) => j == i && i < captures.len() && !well_formed(cs.take(i + 1)),
            },
            match last_start {
                None => i == 0,
                Some(p) => {
                    &&& 0 <= last_k < i
                    &&& cs[last_k].start == p
                    &&& forall|k: int| 0 <= k < i ==> (#[trigger] cs[k]).start.not_after(p)
                },
            },
        decreases captures.len() - i, if malformed.is_none() { 1int } else { 0int },
    {
        let c = &captures[i];
        assert(cs[i as int] == c@);
        assert(cs.take(i + 1).drop_last() =~= cs.take(i as int));
        assert(cs.take(i + 1).last() == c@);
        if c.start.column == 0 || c.end.column == 0 {
            malformed = Some(i);
            assert(!valid_capture(cs.take(i + 1)[i as int]));
        } else {
            let out_of_order = match last_start {
                Some(p) => c.start.precedes(&p),
                None => false,
            };
            if out_of_order {
                malformed = Some(i);
                assert(cs.take(i + 1)[last_k] == cs[last_k]);
                assert(cs.take(i + 1)[i as int] == cs[i as int]);
            } else if !c.start.precedes(&c.end) {
                proof {
                    lemma_extend_well_formed(cs, i as int);
                    last_k = i as int;
                }
                last_start = Some(c.start);
                i = i + 1;
            } else {
                proof {
                    lemma_extend_well_formed(cs, i as int);
                }
                let start = c.start;
                let end = c.end.prev();
                let ghost until = start;
                // Emit what precedes the new capture.
                let ghost stack0 = range_spans(stack@);
                let ghost cursor0 = cursor;
                let ghost out0 = range_spans(out@);
                while stack.len() > 0 && stack[stack.len() - 1].end.precedes(&start)
                    invariant
                        flush(range_spans(stack@), cursor, until, range_spans(out@)) == flush(
                            stack0,
                            cursor0,
                            until,
                            out0,
                        ),
                        stack_bounded(stack@),
                        until == start,
                    decreases stack.len(),
                {
                    let ghost before = range_spans(stack@);
                    let top = stack.pop().unwrap();
                    proof {
                        assert(range_spans(stack@) =~= before.drop_last());
                        assert(stack_bounded(stack@));
                    }
                    let next = top.end.next();
                    let ghost out_before = range_spans(out@);
                    out.push(RangeSpec { start: cursor, end: top.end, face: top.face });
                    proof {
                        assert(range_spans(out@) =~= out_before.push(
                            Span { start: cursor, end: top.end, face: top@.face },
                        ));
                    }
                    cursor = next;
                }
                if stack.len() > 0 && cursor.precedes(&start) {
                    let face = stack[stack.len() - 1].face.clone();
                    let ghost out_before = range_spans(out@);
                    out.push(RangeSpec { start: cursor, end: start.prev(), face });
                    proof {
                        assert(range_spans(out@) =~= out_before.push(
                            Span {
                                start: cursor,
                                end: start.spec_prev(),
                                face: range_spans(stack@).last().face,
                            },
                        ));
                    }
                }
                cursor = start;
                // Drop the ranges that the new capture shadows.
                let ghost stack1 = range_spans(stack@);
                while stack.len() > 0 && !end.precedes(&stack[stack.len() - 1].end)
                    invariant
                        shadow(range_spans(stack@), end) == shadow(stack1, end),
                        stack_bounded(stack@),
                    decreases stack.len(),
                {
                    let ghost before = range_spans(stack@);
                    let _ = stack.pop();
                    proof {
                        assert(range_spans(stack@) =~= before.drop_last());
                    }
                }
                let ghost stack_before = range_spans(stack@);
                stack.push(RangeSpec { start, end, face: c.face.clone() });
                proof {
                    assert(range_spans(stack@) =~= stack_before.push(ingest(c@)));
                    assert(stack_bounded(stack@));
                    last_k = i as int;
                }
                last_start = Some(start);
                i = i + 1;
            }
        }
    }
    let ghost taken = cs.take(i as int);
    // Emit the tails of the ranges still active.
    let ghost stack2 = range_spans(stack@);
    let ghost cursor2 = cursor;
    let ghost out2 = range_spans(out@);
    while stack.len() > 0
        invariant
            drain(range_spans(stack@), cursor, range_spans(out@)) == drain(stack2, cursor2, out2),
            stack_bounded(stack@),
        decreases stack.len(),
    {
        let ghost before = range_spans(stack@);
        let top = stack.pop().unwrap();
        proof {
            assert(range_spans(stack@) =~= before.drop_last());
            assert(stack_bounded(stack@));
        }
        let next = top.end.next();
        let ghost out_before = range_spans(out@);
        out.push(RangeSpec { start: cursor, end: top.end, face: top.face });
        proof {
            assert(range_spans(out@) =~= out_before.push(
                Span { start: cursor, end: top.end, face: top@.face },
            ));
        }
        cursor = next;
    }
    proof {
        assert(range_spans(out@) == resolved(taken));
        if malformed.is_none() {
            assert(taken =~= cs);
        }
        lemma_well_formed_len(cs, i as int);
        lemma_resolved_ordered(taken);
        lemma_last_capture_wins(taken);
        if malformed.is_some() {
            assert(!well_formed(cs)) by {
                if well_formed(cs) {
                    lemma_well_formed_prefix(cs, i + 1);
                }
            }
        }
    }
    Resolution { ranges: out, malformed }
}

} // verus!
