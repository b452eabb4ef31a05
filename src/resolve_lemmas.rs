//! What holds of every resolution, and what some shapes of stream resolve to.

use vstd::prelude::*;

use crate::range::{Point, Span};
use crate::resolve::{
    drain, flush, ingest, initial, is_empty, resolved, run, shadow, valid_capture,
    well_formed, ResolveState,
};

verus! {

/// Each range is non-empty, and each ends before any later one starts.
pub open spec fn ordered(rs: Seq<Span>) -> bool {
    &&& forall|i: int| 0 <= i < rs.len() ==> (#[trigger] rs[i]).start.not_after(rs[i].end)
    &&& forall|i: int, j: int|
        #![trigger rs[i], rs[j]]
        0 <= i < j < rs.len() ==> rs[i].end.before(rs[j].start)
}

/// The emitted ranges are ordered and all lie before the cursor.
spec fn out_ok(out: Seq<Span>, cursor: Point) -> bool {
    &&& ordered(out)
    &&& bounded(out)
    &&& out.len() > 0 ==> out.last().end.before(cursor)
}

/// The active ranges end in strictly decreasing order from the bottom up, at
/// or after the cursor, with a next point.
spec fn stack_ok(stack: Seq<Span>, cursor: Point) -> bool {
    &&& forall|a: int, b: int|
        #![trigger stack[a], stack[b]]
        0 <= a < b < stack.len() ==> stack[b].end.before(stack[a].end)
    &&& forall|a: int| 0 <= a < stack.len() ==> (#[trigger] stack[a]).end.column < usize::MAX
    &&& stack.len() > 0 ==> cursor.not_after(stack.last().end)
    &&& stack.len() > 0 ==> cursor.column >= 1
}

/// Every range starts on a 1-indexed column and ends where a next point can
/// be formed.
spec fn bounded(rs: Seq<Span>) -> bool {
    forall|i: int|
        0 <= i < rs.len() ==> (#[trigger] rs[i]).start.column >= 1 && rs[i].end.column
            < usize::MAX
}

proof fn lemma_push_ordered(out: Seq<Span>, x: Span, cursor: Point)
    requires
        out_ok(out, cursor),
        cursor.not_after(x.start),
        x.start.not_after(x.end),
        x.start.column >= 1,
        x.end.column < usize::MAX,
    ensures
        ordered(out.push(x)),
        bounded(out.push(x)),
        out.push(x).last().end == x.end,
{
    let o = out.push(x);
    assert forall|i: int, j: int| 0 <= i < j < o.len() implies #[trigger] o[i].end.before(
        #[trigger] o[j].start,
    ) by {
        if j == out.len() {
            if i < out.len() - 1 {
                assert(out[i].end.before(out[out.len() - 1].start));
                assert(out[out.len() - 1].start.not_after(out[out.len() - 1].end));
            }
        } else {
            assert(o[i] == out[i] && o[j] == out[j]);
        }
    }
    assert forall|i: int| 0 <= i < o.len() implies (#[trigger] o[i]).start.not_after(o[i].end) by {
        if i < out.len() {
            assert(o[i] == out[i]);
        }
    }
    assert forall|i: int| 0 <= i < o.len() implies (#[trigger] o[i]).start.column >= 1
        && o[i].end.column < usize::MAX by {
        if i < out.len() {
            assert(o[i] == out[i]);
        }
    }
}

proof fn lemma_flush(stack: Seq<Span>, cursor: Point, until: Point, out: Seq<Span>)
    requires
        out_ok(out, cursor),
        stack_ok(stack, cursor),
        cursor.not_after(until),
        until.column >= 1,
    ensures
        ({
            let f = flush(stack, cursor, until, out);
            &&& out_ok(f.out, until)
            &&& f.cursor == until
            &&& f.stack.len() <= stack.len()
            &&& f.stack == stack.take(f.stack.len() as int)
            &&& f.stack.len() > 0 ==> until.not_after(f.stack.last().end)
        }),
    decreases stack.len(),
{
    if stack.len() > 0 {
        let top = stack.last();
        if top.end.before(until) {
            let x = Span { start: cursor, end: top.end, face: top.face };
            lemma_push_ordered(out, x, cursor);
            let s2 = stack.drop_last();
            let c2 = top.end.spec_next();
            assert forall|a: int| 0 <= a < s2.len() implies (#[trigger] s2[a]).end.column
                < usize::MAX by {
                assert(s2[a] == stack[a]);
            }
            assert forall|a: int, b: int| 0 <= a < b < s2.len() implies #[trigger] s2[b].end.before(
                #[trigger] s2[a].end,
            ) by {
                assert(s2[a] == stack[a] && s2[b] == stack[b]);
            }
            if s2.len() > 0 {
                assert(stack[stack.len() - 1].end.before(stack[s2.len() - 1].end));
            }
            lemma_flush(s2, c2, until, out.push(x));
            let f = flush(s2, c2, until, out.push(x));
            assert(f.stack =~= stack.take(f.stack.len() as int));
        } else if cursor.before(until) {
            let x = Span { start: cursor, end: until.spec_prev(), face: top.face };
            lemma_push_ordered(out, x, cursor);
            assert(stack =~= stack.take(stack.len() as int));
        } else {
            assert(stack =~= stack.take(stack.len() as int));
        }
    } else {
        assert(stack =~= stack.take(0));
    }
}

proof fn lemma_shadow(stack: Seq<Span>, end: Point)
    ensures
        shadow(stack, end).len() <= stack.len(),
        shadow(stack, end) == stack.take(shadow(stack, end).len() as int),
        shadow(stack, end).len() > 0 ==> end.before(shadow(stack, end).last().end),
    decreases stack.len(),
{
    if stack.len() > 0 && stack.last().end.not_after(end) {
        lemma_shadow(stack.drop_last(), end);
        let s = shadow(stack.drop_last(), end);
        assert(s =~= stack.take(s.len() as int));
    } else {
        assert(stack =~= stack.take(stack.len() as int));
    }
}

proof fn lemma_drain(stack: Seq<Span>, cursor: Point, out: Seq<Span>)
    requires
        out_ok(out, cursor),
        stack_ok(stack, cursor),
    ensures
        ordered(drain(stack, cursor, out)),
        bounded(drain(stack, cursor, out)),
    decreases stack.len(),
{
    if stack.len() > 0 {
        let top = stack.last();
        let x = Span { start: cursor, end: top.end, face: top.face };
        lemma_push_ordered(out, x, cursor);
        let s2 = stack.drop_last();
        assert forall|a: int| 0 <= a < s2.len() implies (#[trigger] s2[a]).end.column
            < usize::MAX by {
            assert(s2[a] == stack[a]);
        }
        assert forall|a: int, b: int| 0 <= a < b < s2.len() implies #[trigger] s2[b].end.before(
            #[trigger] s2[a].end,
        ) by {
            assert(s2[a] == stack[a] && s2[b] == stack[b]);
        }
        if s2.len() > 0 {
            assert(stack[stack.len() - 1].end.before(stack[s2.len() - 1].end));
        }
        lemma_drain(s2, top.end.spec_next(), out.push(x));
    }
}

/// What holds of the state after a well-formed stream.
spec fn run_ok(cs: Seq<Span>, st: ResolveState) -> bool {
    &&& out_ok(st.out, st.cursor)
    &&& stack_ok(st.stack, st.cursor)
    &&& st.stack.len() == 0 ==> st.out.len() == 0 && st.cursor == initial().cursor
    &&& st.stack.len() > 0 ==> exists|k: int|
        0 <= k < cs.len() && !is_empty(#[trigger] cs[k]) && cs[k].start == st.cursor
}

proof fn lemma_run(cs: Seq<Span>)
    requires
        well_formed(cs),
    ensures
        run_ok(cs, run(cs)),
    decreases cs.len(),
{
    if cs.len() > 0 {
        let prev = cs.drop_last();
        assert forall|i: int, j: int|
            #![trigger prev[i], prev[j]]
            0 <= i < j < prev.len() implies prev[i].start.not_after(
            prev[j].start,
        ) by {
            assert(prev[i] == cs[i] && prev[j] == cs[j]);
        }
        assert forall|i: int| 0 <= i < prev.len() implies valid_capture(#[trigger] prev[i]) by {
            assert(prev[i] == cs[i]);
        }
        lemma_run(prev);
        let st = run(prev);
        let raw = cs.last();
        assert(valid_capture(cs[cs.len() - 1]));
        if !is_empty(raw) {
            let c = ingest(raw);
            if st.stack.len() > 0 {
                let k = choose|k: int|
                    0 <= k < prev.len() && !is_empty(#[trigger] prev[k]) && prev[k].start
                        == st.cursor;
                assert(prev[k] == cs[k]);
                assert(cs[k].start.not_after(cs[cs.len() - 1].start));
            }
            lemma_flush(st.stack, st.cursor, c.start, st.out);
            let f = flush(st.stack, st.cursor, c.start, st.out);
            lemma_shadow(f.stack, c.end);
            let s = shadow(f.stack, c.end);
            let ns = s.push(c);
            assert forall|a: int| 0 <= a < ns.len() implies (#[trigger] ns[a]).end.column
                < usize::MAX by {
                if a < s.len() {
                    assert(s[a] == st.stack[a]);
                }
            }
            assert forall|a: int, b: int| 0 <= a < b < ns.len() implies #[trigger] ns[b].end.before(
                #[trigger] ns[a].end,
            ) by {
                if b < s.len() {
                    assert(s[a] == st.stack[a] && s[b] == st.stack[b]);
                } else {
                    assert(s[a] == st.stack[a]);
                    assert(s[s.len() - 1] == st.stack[s.len() - 1]);
                    if a < s.len() - 1 {
                        assert(st.stack[s.len() - 1].end.before(st.stack[a].end));
                    }
                }
            }
            assert(!is_empty(cs[cs.len() - 1]) && cs[cs.len() - 1].start == c.start);
        } else {
            if st.stack.len() > 0 {
                let k = choose|k: int|
                    0 <= k < prev.len() && !is_empty(#[trigger] prev[k]) && prev[k].start
                        == st.cursor;
                assert(prev[k] == cs[k]);
            }
        }
    }
}

/// The ranges resolved from a well-formed stream are each non-empty, come in
/// order of start, and share no point: each ends before the next starts.
pub proof fn lemma_resolved_ordered(cs: Seq<Span>)
    requires
        well_formed(cs),
    ensures
        ordered(resolved(cs)),
{
    lemma_run(cs);
    let st = run(cs);
    lemma_drain(st.stack, st.cursor, st.out);
}

/// The captures of a stream that cover something.
pub open spec fn covering() -> spec_fn(Span) -> bool {
    |c: Span| !is_empty(c)
}

/// The captures of a stream that cover something, with ends made inclusive.
pub open spec fn ingested(cs: Seq<Span>) -> Seq<Span> {
    cs.filter(covering()).map_values(|c: Span| ingest(c))
}

proof fn lemma_run_without_empty(cs: Seq<Span>)
    ensures
        run(cs) == run(cs.filter(covering())),
    decreases cs.len(),
{
    broadcast use Seq::lemma_filter_push;

    if cs.len() > 0 {
        let prev = cs.drop_last();
        assert(prev.push(cs.last()) =~= cs);
        lemma_run_without_empty(prev);
        let f = prev.filter(covering());
        if !is_empty(cs.last()) {
            assert(f.push(cs.last()).drop_last() =~= f);
        }
    } else {
        reveal(Seq::filter);
    }
}

/// Empty captures change nothing: a stream resolves as it does without them.
/// With the order of what is resolved, no emitted range is empty either.
pub proof fn lemma_empty_captures_ignored(cs: Seq<Span>)
    ensures
        resolved(cs) == resolved(cs.filter(covering())),
        well_formed(cs) ==> forall|i: int|
            0 <= i < resolved(cs).len() ==> (#[trigger] resolved(cs)[i]).start.not_after(
                resolved(cs)[i].end,
            ),
{
    lemma_run_without_empty(cs);
    if well_formed(cs) {
        lemma_resolved_ordered(cs);
    }
}

/// The state after a stream of captures that do not overlap: the last
/// covering capture is active, the earlier ones are emitted.
proof fn lemma_run_apart(cs: Seq<Span>)
    requires
        forall|i: int| 0 <= i < cs.len() ==> valid_capture(#[trigger] cs[i]),
        forall|i: int, j: int|
            #![trigger cs[i], cs[j]]
            0 <= i < j < cs.len() && !is_empty(cs[i]) && !is_empty(cs[j]) ==> cs[i].end.not_after(
                cs[j].start,
            ),
    ensures
        ({
            let st = run(cs);
            &&& st.stack.len() <= 1
            &&& st.out + st.stack == ingested(cs)
            &&& st.stack.len() == 1 ==> st.cursor == st.stack[0].start && exists|k: int|
                0 <= k < cs.len() && !is_empty(#[trigger] cs[k]) && st.stack[0] == ingest(cs[k])
        }),
    decreases cs.len(),
{
    broadcast use Seq::lemma_filter_push, Seq::lemma_push_map_commute;

    if cs.len() == 0 {
        reveal(Seq::filter);
        assert(ingested(cs) =~= Seq::<Span>::empty());
        assert(run(cs).out + run(cs).stack =~= Seq::<Span>::empty());
    } else {
        let prev = cs.drop_last();
        let c = cs.last();
        assert(prev.push(c) =~= cs);
        assert forall|i: int| 0 <= i < prev.len() implies valid_capture(#[trigger] prev[i]) by {
            assert(prev[i] == cs[i]);
        }
        assert forall|i: int, j: int|
            #![trigger prev[i], prev[j]]
            0 <= i < j < prev.len() && !is_empty(prev[i]) && !is_empty(prev[j]) implies prev[i].end.not_after(
            prev[j].start,
        ) by {
            assert(prev[i] == cs[i] && prev[j] == cs[j]);
        }
        lemma_run_apart(prev);
        let st = run(prev);
        let f = prev.filter(covering());
        if !is_empty(c) {
            assert(cs.filter(covering()) == f.push(c));
            assert(ingested(cs) == ingested(prev).push(ingest(c)));
            let ic = ingest(c);
            assert(valid_capture(cs[cs.len() - 1]));
            if st.stack.len() == 1 {
                let t = st.stack[0];
                let k = choose|k: int|
                    0 <= k < prev.len() && !is_empty(#[trigger] prev[k]) && t == ingest(prev[k]);
                assert(prev[k] == cs[k]);
                assert(valid_capture(cs[k]));
                assert(cs[k].end.not_after(cs[cs.len() - 1].start));
                assert(t.end.before(ic.start));
                let out1 = st.out.push(Span { start: st.cursor, end: t.end, face: t.face });
                assert(st.stack.drop_last() =~= Seq::<Span>::empty());
                assert(flush(st.stack, st.cursor, ic.start, st.out) == flush(
                    Seq::<Span>::empty(),
                    t.end.spec_next(),
                    ic.start,
                    out1,
                ));
                assert(out1 == st.out.push(t));
                assert(st.out + st.stack =~= st.out.push(t));
            } else {
                assert(st.stack =~= Seq::<Span>::empty());
                assert(st.out =~= ingested(prev));
            }
            let st2 = run(cs);
            assert(st2.stack =~= seq![ic]);
            assert(st2.out + st2.stack =~= ingested(prev).push(ic));
            assert(!is_empty(cs[cs.len() - 1]) && st2.stack[0] == ingest(cs[cs.len() - 1]));
        } else {
            assert(cs.filter(covering()) == f);
            if st.stack.len() == 1 {
                let k = choose|k: int|
                    0 <= k < prev.len() && !is_empty(#[trigger] prev[k]) && st.stack[0] == ingest(
                        prev[k],
                    );
                assert(prev[k] == cs[k]);
            }
        }
    }
}

/// A stream in order of start whose covering captures do not overlap is well
/// formed and resolves to those captures with their ends made inclusive.
pub proof fn lemma_apart_captures_kept(cs: Seq<Span>)
    requires
        forall|i: int| 0 <= i < cs.len() ==> valid_capture(#[trigger] cs[i]),
        forall|i: int, j: int|
            #![trigger cs[i], cs[j]]
            0 <= i < j < cs.len() ==> cs[i].start.not_after(cs[j].start),
        forall|i: int, j: int|
            #![trigger cs[i], cs[j]]
            0 <= i < j < cs.len() && !is_empty(cs[i]) && !is_empty(cs[j]) ==> cs[i].end.not_after(
                cs[j].start,
            ),
    ensures
        well_formed(cs),
        resolved(cs) == ingested(cs),
{
    lemma_run_apart(cs);
    let st = run(cs);
    if st.stack.len() == 1 {
        let t = st.stack[0];
        assert(st.stack.drop_last() =~= Seq::<Span>::empty());
        assert(drain(st.stack, st.cursor, st.out) == drain(
            Seq::<Span>::empty(),
            t.end.spec_next(),
            st.out.push(t),
        ));
        assert(st.out + st.stack =~= st.out.push(t));
    } else {
        assert(st.stack =~= Seq::<Span>::empty());
        assert(st.out + st.stack =~= st.out);
    }
}

/// A capture nested in an earlier one splits it: the outer face up to the
/// point before the inner capture, the inner face over it, and the outer face
/// again after it, where anything of the outer range is left on either side.
pub proof fn lemma_nested_capture_splits(a: Span, b: Span)
    requires
        valid_capture(a),
        valid_capture(b),
        !is_empty(a),
        !is_empty(b),
        a.start.not_after(b.start),
        b.end.not_after(a.end),
    ensures
        resolved(seq![a, b]) == (if a.start.before(b.start) {
            seq![Span { start: a.start, end: b.start.spec_prev(), face: a.face }]
        } else {
            Seq::<Span>::empty()
        }) + seq![ingest(b)] + (if b.end.before(a.end) {
            seq![Span { start: ingest(b).end.spec_next(), end: ingest(a).end, face: a.face }]
        } else {
            Seq::<Span>::empty()
        }),
{
    let cs = seq![a, b];
    let ia = ingest(a);
    let ib = ingest(b);
    let e = Seq::<Span>::empty();
    assert(cs.drop_last() =~= seq![a]);
    assert(seq![a].drop_last() =~= e);
    assert(run(e) == initial());
    assert(flush(e, initial().cursor, ia.start, e) == (ResolveState { stack: e, cursor: ia.start, out: e }));
    assert(shadow(e, ia.end) == e);
    assert(e.push(ia) =~= seq![ia]);
    let st1 = ResolveState { stack: seq![ia], cursor: a.start, out: e };
    assert(run(seq![a]) == st1);
    let pre = if a.start.before(b.start) {
        seq![Span { start: a.start, end: b.start.spec_prev(), face: a.face }]
    } else {
        e
    };
    assert(!ia.end.before(b.start));
    assert(flush(seq![ia], a.start, b.start, e) == (ResolveState { stack: seq![ia], cursor: b.start, out: pre })) by {
        if a.start.before(b.start) {
            assert(e.push(Span { start: a.start, end: b.start.spec_prev(), face: a.face }) =~= pre);
        }
    }
    assert(seq![ia].drop_last() =~= e);
    let kept = if b.end.before(a.end) { seq![ia] } else { e };
    assert(shadow(seq![ia], ib.end) == kept) by {
        if !b.end.before(a.end) {
            assert(shadow(e, ib.end) == e);
        }
    }
    assert(run(cs) == (ResolveState { stack: kept.push(ib), cursor: b.start, out: pre }));
    let post = if b.end.before(a.end) {
        seq![Span { start: ib.end.spec_next(), end: ia.end, face: a.face }]
    } else {
        e
    };
    assert(kept.push(ib).drop_last() =~= kept);
    let out1 = pre.push(ib);
    assert(Span { start: b.start, end: ib.end, face: ib.face } == ib);
    if b.end.before(a.end) {
        assert(kept.drop_last() =~= e);
        assert(drain(kept, ib.end.spec_next(), out1) == drain(
            e,
            ia.end.spec_next(),
            out1.push(Span { start: ib.end.spec_next(), end: ia.end, face: a.face }),
        ));
    }
    assert(drain(kept.push(ib), b.start, pre) == drain(kept, ib.end.spec_next(), out1));
    if !b.end.before(a.end) {
        assert(drain(e, ib.end.spec_next(), out1) == out1);
    }
    assert(resolved(cs) == out1 + post) by {
        assert(out1 + post =~= if b.end.before(a.end) {
            out1.push(Span { start: ib.end.spec_next(), end: ia.end, face: a.face })
        } else {
            out1
        });
    }
    assert(pre + seq![ib] =~= out1);
}

/// Resolved ranges taken as captures again: their ends made exclusive.
pub open spec fn as_captures(rs: Seq<Span>) -> Seq<Span> {
    rs.map_values(|r: Span| Span { start: r.start, end: r.end.spec_next(), face: r.face })
}

proof fn lemma_filter_keeps_all(s: Seq<Span>)
    requires
        forall|i: int| 0 <= i < s.len() ==> !is_empty(#[trigger] s[i]),
    ensures
        s.filter(covering()) == s,
    decreases s.len(),
{
    reveal(Seq::filter);
    if s.len() > 0 {
        let prev = s.drop_last();
        assert forall|i: int| 0 <= i < prev.len() implies !is_empty(#[trigger] prev[i]) by {
            assert(prev[i] == s[i]);
        }
        lemma_filter_keeps_all(prev);
        assert(!is_empty(s[s.len() - 1]));
        assert(prev.push(s.last()) =~= s);
    }
}

/// Resolving is idempotent: the ranges a well-formed stream resolves to, fed
/// back in as captures, form a well-formed stream that resolves to them again.
pub proof fn lemma_resolve_idempotent(cs: Seq<Span>)
    requires
        well_formed(cs),
    ensures
        well_formed(as_captures(resolved(cs))),
        resolved(as_captures(resolved(cs))) == resolved(cs),
{
    lemma_run(cs);
    let st = run(cs);
    lemma_drain(st.stack, st.cursor, st.out);
    let r = resolved(cs);
    assert(bounded(r));
    let q = as_captures(r);
    assert forall|i: int| 0 <= i < q.len() implies valid_capture(#[trigger] q[i]) && !is_empty(q[i]) by {
        assert(r[i].start.not_after(r[i].end));
    }
    assert forall|i: int, j: int|
        #![trigger q[i], q[j]]
        0 <= i < j < q.len() && !is_empty(q[i]) && !is_empty(q[j]) implies q[i].end.not_after(
        q[j].start,
    ) by {
        assert(r[i].end.before(r[j].start));
    }
    assert forall|i: int, j: int|
        #![trigger q[i], q[j]]
        0 <= i < j < q.len() implies q[i].start.not_after(q[j].start) by {
        assert(r[i].start.not_after(r[i].end));
        assert(r[i].end.before(r[j].start));
    }
    lemma_apart_captures_kept(q);
    lemma_filter_keeps_all(q);
    assert(ingested(q) =~= r);
}

/// Every range has a face in `faces`.
pub open spec fn faces_within(rs: Seq<Span>, faces: Set<Seq<char>>) -> bool {
    forall|i: int| 0 <= i < rs.len() ==> faces.contains(#[trigger] rs[i].face)
}

proof fn lemma_push_within(rs: Seq<Span>, x: Span, faces: Set<Seq<char>>)
    requires
        faces_within(rs, faces),
        faces.contains(x.face),
    ensures
        faces_within(rs.push(x), faces),
{
    assert forall|i: int| 0 <= i < rs.push(x).len() implies faces.contains(
        #[trigger] rs.push(x)[i].face,
    ) by {
        if i < rs.len() {
            assert(rs.push(x)[i] == rs[i]);
        }
    }
}

proof fn lemma_drop_within(rs: Seq<Span>, faces: Set<Seq<char>>)
    requires
        faces_within(rs, faces),
        rs.len() > 0,
    ensures
        faces_within(rs.drop_last(), faces),
        faces.contains(rs.last().face),
{
    assert forall|i: int| 0 <= i < rs.drop_last().len() implies faces.contains(
        #[trigger] rs.drop_last()[i].face,
    ) by {
        assert(rs.drop_last()[i] == rs[i]);
    }
}

proof fn lemma_flush_within(
    stack: Seq<Span>,
    cursor: Point,
    until: Point,
    out: Seq<Span>,
    faces: Set<Seq<char>>,
)
    requires
        faces_within(stack, faces),
        faces_within(out, faces),
    ensures
        faces_within(flush(stack, cursor, until, out).stack, faces),
        faces_within(flush(stack, cursor, until, out).out, faces),
    decreases stack.len(),
{
    if stack.len() > 0 {
        lemma_drop_within(stack, faces);
        let top = stack.last();
        if top.end.before(until) {
            let x = Span { start: cursor, end: top.end, face: top.face };
            lemma_push_within(out, x, faces);
            lemma_flush_within(stack.drop_last(), top.end.spec_next(), until, out.push(x), faces);
        } else if cursor.before(until) {
            lemma_push_within(
                out,
                Span { start: cursor, end: until.spec_prev(), face: top.face },
                faces,
            );
        }
    }
}

proof fn lemma_shadow_within(stack: Seq<Span>, end: Point, faces: Set<Seq<char>>)
    requires
        faces_within(stack, faces),
    ensures
        faces_within(shadow(stack, end), faces),
    decreases stack.len(),
{
    if stack.len() > 0 && stack.last().end.not_after(end) {
        lemma_drop_within(stack, faces);
        lemma_shadow_within(stack.drop_last(), end, faces);
    }
}

proof fn lemma_drain_within(stack: Seq<Span>, cursor: Point, out: Seq<Span>, faces: Set<Seq<char>>)
    requires
        faces_within(stack, faces),
        faces_within(out, faces),
    ensures
        faces_within(drain(stack, cursor, out), faces),
    decreases stack.len(),
{
    if stack.len() > 0 {
        lemma_drop_within(stack, faces);
        let top = stack.last();
        let x = Span { start: cursor, end: top.end, face: top.face };
        lemma_push_within(out, x, faces);
        lemma_drain_within(stack.drop_last(), top.end.spec_next(), out.push(x), faces);
    }
}

proof fn lemma_run_within(cs: Seq<Span>, faces: Set<Seq<char>>)
    requires
        faces_within(cs, faces),
    ensures
        faces_within(run(cs).stack, faces),
        faces_within(run(cs).out, faces),
    decreases cs.len(),
{
    if cs.len() > 0 {
        lemma_drop_within(cs, faces);
        lemma_run_within(cs.drop_last(), faces);
        let st = run(cs.drop_last());
        if !is_empty(cs.last()) {
            let c = ingest(cs.last());
            lemma_flush_within(st.stack, st.cursor, c.start, st.out, faces);
            let f = flush(st.stack, st.cursor, c.start, st.out);
            lemma_shadow_within(f.stack, c.end, faces);
            lemma_push_within(shadow(f.stack, c.end), c, faces);
        }
    }
}

/// Resolving invents no face: each range has the face of a capture.
pub proof fn lemma_resolved_faces(cs: Seq<Span>, faces: Set<Seq<char>>)
    requires
        faces_within(cs, faces),
    ensures
        faces_within(resolved(cs), faces),
{
    lemma_run_within(cs, faces);
    let st = run(cs);
    lemma_drain_within(st.stack, st.cursor, st.out, faces);
}

/// `p` lies in `x`.
pub open spec fn covers(x: Span, p: Point) -> bool {
    x.start.not_after(p) && p.not_after(x.end)
}

/// The face of the last span of `xs` that covers `p`; `None` where none does.
pub open spec fn face_at(xs: Seq<Span>, p: Point) -> Option<Seq<char>>
    decreases xs.len(),
{
    if xs.len() == 0 {
        None
    } else if covers(xs.last(), p) {
        Some(xs.last().face)
    } else {
        face_at(xs.drop_last(), p)
    }
}

proof fn lemma_face_at_push(xs: Seq<Span>, x: Span, p: Point)
    ensures
        face_at(xs.push(x), p) == if covers(x, p) {
            Some(x.face)
        } else {
            face_at(xs, p)
        },
{
    assert(xs.push(x).drop_last() =~= xs);
}

proof fn lemma_face_at_none(xs: Seq<Span>, p: Point)
    requires
        forall|i: int| 0 <= i < xs.len() ==> !covers(#[trigger] xs[i], p),
    ensures
        face_at(xs, p) is None,
    decreases xs.len(),
{
    if xs.len() > 0 {
        let d = xs.drop_last();
        assert forall|i: int| 0 <= i < d.len() implies !covers(#[trigger] d[i], p) by {
            assert(d[i] == xs[i]);
        }
        assert(!covers(xs[xs.len() - 1], p));
        lemma_face_at_none(d, p);
    }
}

/// Every range ends before `cursor`.
spec fn ends_before(out: Seq<Span>, cursor: Point) -> bool {
    forall|i: int| 0 <= i < out.len() ==> (#[trigger] out[i]).end.before(cursor)
}

/// Every range starts at or before `cursor`.
spec fn starts_by(stack: Seq<Span>, cursor: Point) -> bool {
    forall|k: int| 0 <= k < stack.len() ==> (#[trigger] stack[k]).start.not_after(cursor)
}

proof fn lemma_pop_ok(stack: Seq<Span>, cursor: Point)
    requires
        stack_ok(stack, cursor),
        starts_by(stack, cursor),
        stack.len() > 0,
    ensures
        stack_ok(stack.drop_last(), stack.last().end.spec_next()),
        starts_by(stack.drop_last(), stack.last().end.spec_next()),
{
    let s2 = stack.drop_last();
    let c2 = stack.last().end.spec_next();
    assert forall|a: int| 0 <= a < s2.len() implies (#[trigger] s2[a]).end.column < usize::MAX
        && s2[a].start.not_after(c2) by {
        assert(s2[a] == stack[a]);
    }
    assert forall|a: int, b: int| 0 <= a < b < s2.len() implies #[trigger] s2[b].end.before(
        #[trigger] s2[a].end,
    ) by {
        assert(s2[a] == stack[a] && s2[b] == stack[b]);
    }
    if s2.len() > 0 {
        assert(stack[stack.len() - 1].end.before(stack[s2.len() - 1].end));
    }
}

proof fn lemma_out_push_before(out: Seq<Span>, x: Span, cursor: Point, next: Point)
    requires
        ends_before(out, cursor),
        cursor.not_after(next),
        x.end.before(next),
    ensures
        ends_before(out.push(x), next),
{
    assert forall|i: int| 0 <= i < out.push(x).len() implies (#[trigger] out.push(x)[i]).end.before(
        next,
    ) by {
        if i < out.len() {
            assert(out.push(x)[i] == out[i]);
        }
    }
}

proof fn lemma_flush_faces(stack: Seq<Span>, cursor: Point, until: Point, out: Seq<Span>)
    requires
        stack_ok(stack, cursor),
        starts_by(stack, cursor),
        ends_before(out, cursor),
        cursor.not_after(until),
        until.column >= 1,
    ensures
        ({
            let f = flush(stack, cursor, until, out);
            &&& ends_before(f.out, until)
            &&& starts_by(f.stack, until)
            &&& forall|p: Point|
                p.before(cursor) ==> #[trigger] face_at(f.out, p) == face_at(out, p)
            &&& forall|p: Point|
                cursor.not_after(p) && p.before(until) ==> #[trigger] face_at(f.out, p) == face_at(
                    stack,
                    p,
                )
            &&& forall|p: Point|
                until.not_after(p) ==> #[trigger] face_at(f.stack, p) == face_at(stack, p)
        }),
    decreases stack.len(),
{
    let f = flush(stack, cursor, until, out);
    if stack.len() == 0 {
        assert forall|p: Point| cursor.not_after(p) && p.before(until) implies #[trigger] face_at(
            f.out,
            p,
        ) == face_at(stack, p) by {
            lemma_face_at_none(out, p);
        }
    } else {
        let top = stack.last();
        if top.end.before(until) {
            let x = Span { start: cursor, end: top.end, face: top.face };
            let c2 = top.end.spec_next();
            let s2 = stack.drop_last();
            let o2 = out.push(x);
            lemma_pop_ok(stack, cursor);
            lemma_out_push_before(out, x, cursor, c2);
            lemma_flush_faces(s2, c2, until, o2);
            assert forall|p: Point| p.before(cursor) implies #[trigger] face_at(f.out, p) == face_at(
                out,
                p,
            ) by {
                lemma_face_at_push(out, x, p);
            }
            assert forall|p: Point| cursor.not_after(p) && p.before(until) implies #[trigger] face_at(
                f.out,
                p,
            ) == face_at(stack, p) by {
                assert(stack.drop_last().push(top) =~= stack);
                lemma_face_at_push(s2, top, p);
                if p.not_after(top.end) {
                    lemma_face_at_push(out, x, p);
                    assert(starts_by(stack, cursor) && stack[stack.len() - 1] == top);
                }
            }
            assert forall|p: Point| until.not_after(p) implies #[trigger] face_at(f.stack, p)
                == face_at(stack, p) by {
                assert(stack.drop_last().push(top) =~= stack);
                lemma_face_at_push(s2, top, p);
            }
        } else if cursor.before(until) {
            let x = Span { start: cursor, end: until.spec_prev(), face: top.face };
            lemma_out_push_before(out, x, cursor, until);
            assert forall|p: Point| p.before(cursor) implies #[trigger] face_at(f.out, p) == face_at(
                out,
                p,
            ) by {
                lemma_face_at_push(out, x, p);
            }
            assert forall|p: Point| cursor.not_after(p) && p.before(until) implies #[trigger] face_at(
                f.out,
                p,
            ) == face_at(stack, p) by {
                lemma_face_at_push(out, x, p);
                assert(stack.drop_last().push(top) =~= stack);
                lemma_face_at_push(stack.drop_last(), top, p);
                assert(starts_by(stack, cursor) && stack[stack.len() - 1] == top);
            }
            assert(starts_by(f.stack, until)) by {
                assert forall|k: int| 0 <= k < f.stack.len() implies (
                #[trigger] f.stack[k]).start.not_after(until) by {
                    assert(stack[k].start.not_after(cursor));
                }
            }
        } else {
            assert(starts_by(f.stack, until)) by {
                assert forall|k: int| 0 <= k < f.stack.len() implies (
                #[trigger] f.stack[k]).start.not_after(until) by {
                    assert(stack[k].start.not_after(cursor));
                }
            }
        }
    }
}

proof fn lemma_shadow_faces(stack: Seq<Span>, end: Point, cursor: Point)
    requires
        starts_by(stack, cursor),
    ensures
        starts_by(shadow(stack, end), cursor),
        forall|p: Point| end.before(p) ==> #[trigger] face_at(shadow(stack, end), p) == face_at(
            stack,
            p,
        ),
    decreases stack.len(),
{
    if stack.len() > 0 && stack.last().end.not_after(end) {
        let d = stack.drop_last();
        assert forall|k: int| 0 <= k < d.len() implies (#[trigger] d[k]).start.not_after(cursor) by {
            assert(d[k] == stack[k]);
        }
        lemma_shadow_faces(d, end, cursor);
        assert forall|p: Point| end.before(p) implies #[trigger] face_at(shadow(stack, end), p)
            == face_at(stack, p) by {
            assert(d.push(stack.last()) =~= stack);
            lemma_face_at_push(d, stack.last(), p);
        }
    }
}

proof fn lemma_drain_faces(stack: Seq<Span>, cursor: Point, out: Seq<Span>)
    requires
        stack_ok(stack, cursor),
        starts_by(stack, cursor),
        ends_before(out, cursor),
    ensures
        forall|p: Point| #[trigger]
            face_at(drain(stack, cursor, out), p) == if p.before(cursor) {
                face_at(out, p)
            } else {
                face_at(stack, p)
            },
    decreases stack.len(),
{
    if stack.len() == 0 {
        assert forall|p: Point| #[trigger] face_at(drain(stack, cursor, out), p) == if p.before(
            cursor,
        ) {
            face_at(out, p)
        } else {
            face_at(stack, p)
        } by {
            if !p.before(cursor) {
                lemma_face_at_none(out, p);
            }
        }
    } else {
        let top = stack.last();
        let x = Span { start: cursor, end: top.end, face: top.face };
        let c2 = top.end.spec_next();
        let s2 = stack.drop_last();
        let o2 = out.push(x);
        lemma_pop_ok(stack, cursor);
        lemma_out_push_before(out, x, cursor, c2);
        lemma_drain_faces(s2, c2, o2);
        assert forall|p: Point| #[trigger] face_at(drain(stack, cursor, out), p) == if p.before(
            cursor,
        ) {
            face_at(out, p)
        } else {
            face_at(stack, p)
        } by {
            assert(s2.push(top) =~= stack);
            lemma_face_at_push(s2, top, p);
            lemma_face_at_push(out, x, p);
            assert(starts_by(stack, cursor) && stack[stack.len() - 1] == top);
        }
    }
}

proof fn lemma_run_faces(cs: Seq<Span>)
    requires
        well_formed(cs),
    ensures
        ({
            let st = run(cs);
            &&& starts_by(st.stack, st.cursor)
            &&& ends_before(st.out, st.cursor)
            &&& forall|p: Point| #[trigger]
                face_at(ingested(cs), p) == if p.before(st.cursor) {
                    face_at(st.out, p)
                } else {
                    face_at(st.stack, p)
                }
        }),
    decreases cs.len(),
{
    broadcast use Seq::lemma_filter_push, Seq::lemma_push_map_commute;

    if cs.len() == 0 {
        reveal(Seq::filter);
        assert(ingested(cs) =~= Seq::<Span>::empty());
    } else {
        let prev = cs.drop_last();
        let raw = cs.last();
        assert(prev.push(raw) =~= cs);
        assert forall|i: int, j: int|
            #![trigger prev[i], prev[j]]
            0 <= i < j < prev.len() implies prev[i].start.not_after(
            prev[j].start,
        ) by {
            assert(prev[i] == cs[i] && prev[j] == cs[j]);
        }
        assert forall|i: int| 0 <= i < prev.len() implies valid_capture(#[trigger] prev[i]) by {
            assert(prev[i] == cs[i]);
        }
        lemma_run(prev);
        lemma_run_faces(prev);
        let st = run(prev);
        if is_empty(raw) {
            assert(ingested(cs) == ingested(prev));
        } else {
            assert(ingested(cs) == ingested(prev).push(ingest(raw)));
            let c = ingest(raw);
            assert(valid_capture(cs[cs.len() - 1]));
            if st.stack.len() > 0 {
                let k = choose|k: int|
                    0 <= k < prev.len() && !is_empty(#[trigger] prev[k]) && prev[k].start
                        == st.cursor;
                assert(prev[k] == cs[k]);
                assert(cs[k].start.not_after(cs[cs.len() - 1].start));
            }
            lemma_flush_faces(st.stack, st.cursor, c.start, st.out);
            let f = flush(st.stack, st.cursor, c.start, st.out);
            lemma_shadow_faces(f.stack, c.end, c.start);
            let sh = shadow(f.stack, c.end);
            let ns = sh.push(c);
            assert forall|k: int| 0 <= k < ns.len() implies (#[trigger] ns[k]).start.not_after(
                c.start,
            ) by {
                if k < sh.len() {
                    assert(ns[k] == sh[k]);
                }
            }
            assert forall|p: Point| #[trigger]
                face_at(ingested(cs), p) == if p.before(c.start) {
                    face_at(f.out, p)
                } else {
                    face_at(ns, p)
                } by {
                lemma_face_at_push(ingested(prev), c, p);
                lemma_face_at_push(sh, c, p);
            }
        }
    }
}

/// Each point gets the face of the last capture that covers it, and only a
/// covered point gets one: a point lies in a resolved range exactly when a
/// capture covers it, and the range it lies in (there is one, as resolved
/// ranges are disjoint) has the face of the last capture that covers it.
pub proof fn lemma_last_capture_wins(cs: Seq<Span>)
    requires
        well_formed(cs),
    ensures
        forall|p: Point| #[trigger] face_at(resolved(cs), p) == face_at(ingested(cs), p),
{
    lemma_run(cs);
    lemma_run_faces(cs);
    let st = run(cs);
    assert(ends_before(st.out, st.cursor)) by {
        assert forall|i: int| 0 <= i < st.out.len() implies (#[trigger] st.out[i]).end.before(
            st.cursor,
        ) by {
            if i < st.out.len() - 1 {
                assert(st.out[i].end.before(st.out[st.out.len() - 1].start));
                assert(st.out[st.out.len() - 1].start.not_after(st.out[st.out.len() - 1].end));
            }
        }
    }
    lemma_drain_faces(st.stack, st.cursor, st.out);
}

/// Removing one capture that covers nothing from a well-formed stream keeps
/// it well formed and changes nothing it resolves to.
pub proof fn lemma_empty_capture_removed(cs: Seq<Span>, k: int)
    requires
        well_formed(cs),
        0 <= k < cs.len(),
        is_empty(cs[k]),
    ensures
        well_formed(cs.remove(k)),
        resolved(cs.remove(k)) == resolved(cs),
{
    broadcast use Seq::filter_distributes_over_add;

    let a = cs.take(k);
    let b = cs.skip(k + 1);
    let z = seq![cs[k]];
    assert(cs.remove(k) =~= a + b);
    assert(cs =~= a + z + b);
    assert(z.filter(covering()) =~= Seq::<Span>::empty()) by {
        let e = Seq::<Span>::empty();
        assert(e.push(cs[k]) =~= z);
        e.lemma_filter_push(cs[k], covering());
        assert(e.filter(covering()) =~= e) by {
            reveal(Seq::filter);
        }
    }
    assert((a + z + b).filter(covering()) == (a + z).filter(covering()) + b.filter(covering()));
    assert((a + z).filter(covering()) == a.filter(covering()) + z.filter(covering()));
    assert(a.filter(covering()) + Seq::<Span>::empty() =~= a.filter(covering()));
    assert(cs.filter(covering()) == cs.remove(k).filter(covering()));
    lemma_run_without_empty(cs);
    lemma_run_without_empty(cs.remove(k));
    let r = cs.remove(k);
    assert forall|i: int| 0 <= i < r.len() implies valid_capture(#[trigger] r[i]) by {
        if i < k {
            assert(r[i] == cs[i]);
        } else {
            assert(r[i] == cs[i + 1]);
        }
    }
    assert forall|i: int, j: int|
        #![trigger r[i], r[j]]
        0 <= i < j < r.len() implies r[i].start.not_after(r[j].start) by {
        let i2 = if i < k { i } else { i + 1 };
        let j2 = if j < k { j } else { j + 1 };
        assert(r[i] == cs[i2] && r[j] == cs[j2]);
    }
}

} // verus!
