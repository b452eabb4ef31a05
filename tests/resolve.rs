use kak_tree_sitter::range::{Capture, Point, RangeSpec};
use kak_tree_sitter::resolve::{resolve, Resolution};

fn p(row: usize, column: usize) -> Point {
    Point::new(row, column)
}

fn cap(s: (usize, usize), e: (usize, usize), face: &str) -> Capture {
    Capture::new(p(s.0, s.1), p(e.0, e.1), face.to_string())
}

fn range(s: (usize, usize), e: (usize, usize), face: &str) -> RangeSpec {
    RangeSpec::new(p(s.0, s.1), p(e.0, e.1), face.to_string())
}

fn texts(r: &Resolution) -> Vec<String> {
    r.ranges.iter().map(|x| x.to_string()).collect()
}

#[test]
fn nested_capture_at_line_start_boundary() {
    let caps = vec![cap((1, 1), (1, 5), "kw"), cap((1, 2), (1, 4), "lit")];
    let r = resolve(&caps);
    assert_eq!(r.malformed, None);
    assert_eq!(
        r.ranges,
        vec![range((1, 1), (1, 1), "kw"), range((1, 2), (1, 3), "lit"), range((1, 4), (1, 4), "kw")]
    );
}

#[test]
fn apart_captures_are_kept_with_inclusive_ends() {
    let caps = vec![
        cap((1, 1), (1, 3), "keyword"),
        cap((1, 4), (1, 8), "function"),
        cap((2, 1), (2, 2), "string"),
    ];
    let r = resolve(&caps);
    assert_eq!(r.malformed, None);
    assert_eq!(
        r.ranges,
        vec![
            range((1, 1), (1, 2), "keyword"),
            range((1, 4), (1, 7), "function"),
            range((2, 1), (2, 1), "string"),
        ]
    );
}

#[test]
fn adjacent_captures_of_one_face_stay_separate() {
    let caps = vec![cap((1, 1), (1, 3), "k"), cap((1, 3), (1, 5), "k")];
    let r = resolve(&caps);
    assert_eq!(r.ranges, vec![range((1, 1), (1, 2), "k"), range((1, 3), (1, 4), "k")]);
}

#[test]
fn nested_capture_splits_outer_range() {
    let caps = vec![cap((1, 1), (3, 5), "outer"), cap((2, 2), (2, 4), "inner")];
    let r = resolve(&caps);
    assert_eq!(
        r.ranges,
        vec![
            range((1, 1), (2, 1), "outer"),
            range((2, 2), (2, 3), "inner"),
            range((2, 4), (3, 4), "outer"),
        ]
    );
}

#[test]
fn nested_capture_sharing_both_ends_hides_outer() {
    let caps = vec![cap((1, 3), (1, 9), "outer"), cap((1, 3), (1, 9), "inner")];
    let r = resolve(&caps);
    assert_eq!(r.ranges, vec![range((1, 3), (1, 8), "inner")]);
}

#[test]
fn nested_capture_sharing_start_leaves_suffix() {
    let caps = vec![cap((1, 3), (1, 9), "outer"), cap((1, 3), (1, 5), "inner")];
    let r = resolve(&caps);
    assert_eq!(r.ranges, vec![range((1, 3), (1, 4), "inner"), range((1, 5), (1, 8), "outer")]);
}

#[test]
fn overlapping_captures_come_out_disjoint_and_sorted() {
    let caps = vec![
        cap((1, 1), (1, 20), "a"),
        cap((1, 3), (1, 6), "b"),
        cap((1, 5), (1, 12), "c"),
        cap((1, 10), (1, 11), "d"),
        cap((1, 15), (1, 30), "e"),
    ];
    let r = resolve(&caps);
    assert_eq!(r.malformed, None);
    assert_eq!(
        texts(&r),
        vec![
            "1.1,1.2|a",
            "1.3,1.4|b",
            "1.5,1.9|c",
            "1.10,1.10|d",
            "1.11,1.11|c",
            "1.12,1.14|a",
            "1.15,1.29|e",
        ]
    );
    for w in r.ranges.windows(2) {
        assert!(w[0].start <= w[0].end);
        assert!(w[0].end < w[1].start);
    }
}

#[test]
fn resolving_twice_gives_the_same_ranges() {
    let caps = vec![cap((1, 1), (2, 4), "a"), cap((1, 2), (1, 9), "b"), cap((2, 1), (2, 2), "c")];
    assert_eq!(resolve(&caps), resolve(&caps));
}

#[test]
fn resolved_ranges_fed_back_resolve_to_themselves() {
    let caps = vec![cap((1, 1), (2, 4), "a"), cap((1, 2), (1, 9), "b"), cap((2, 1), (2, 2), "c")];
    let first = resolve(&caps);
    let again: Vec<Capture> = first
        .ranges
        .iter()
        .map(|x| Capture::new(x.start, x.end.next(), x.face.clone()))
        .collect();
    let second = resolve(&again);
    assert_eq!(second.malformed, None);
    assert_eq!(second.ranges, first.ranges);
}

#[test]
fn zero_width_capture_emits_nothing() {
    let caps = vec![cap((1, 4), (1, 4), "empty")];
    assert_eq!(resolve(&caps).ranges, vec![]);
    let caps = vec![cap((1, 1), (1, 6), "a"), cap((1, 3), (1, 3), "empty")];
    assert_eq!(resolve(&caps).ranges, vec![range((1, 1), (1, 5), "a")]);
}

#[test]
fn empty_stream_resolves_to_nothing() {
    let r = resolve(&vec![]);
    assert_eq!(r, Resolution { ranges: vec![], malformed: None });
}

#[test]
fn column_zero_is_malformed() {
    let caps = vec![cap((1, 1), (1, 3), "a"), cap((1, 0), (1, 5), "b"), cap((1, 6), (1, 8), "c")];
    let r = resolve(&caps);
    assert_eq!(r.malformed, Some(1));
    assert_eq!(r.ranges, vec![range((1, 1), (1, 2), "a")]);
}

#[test]
fn out_of_order_start_stops_the_stream() {
    let caps = vec![cap((2, 1), (2, 8), "a"), cap((2, 3), (2, 4), "b"), cap((1, 1), (1, 2), "c")];
    let r = resolve(&caps);
    assert_eq!(r.malformed, Some(2));
    assert_eq!(
        r.ranges,
        vec![range((2, 1), (2, 2), "a"), range((2, 3), (2, 3), "b"), range((2, 4), (2, 7), "a")]
    );
}

#[test]
fn capture_ending_at_column_one_ends_on_column_zero() {
    let caps = vec![cap((1, 1), (2, 1), "a")];
    assert_eq!(resolve(&caps).ranges, vec![range((1, 1), (2, 0), "a")]);
}

#[test]
fn point_steps_and_conversion() {
    assert_eq!(p(3, 4).next(), p(3, 5));
    assert_eq!(p(3, 4).prev(), p(3, 3));
    assert_eq!(Point::one_indexed(0, 0), Some(p(1, 1)));
    assert_eq!(Point::one_indexed(7, 2), Some(p(8, 3)));
    assert_eq!(Point::one_indexed(usize::MAX, 2), None);
    assert!(p(1, 9).precedes(&p(2, 1)));
    assert!(!p(2, 1).precedes(&p(2, 1)));
}

#[test]
fn range_text_has_rows_columns_and_face() {
    assert_eq!(range((1, 1), (1, 1), "kw").to_string(), "1.1,1.1|kw");
    assert_eq!(range((12, 305), (140, 9), "string").to_string(), "12.305,140.9|string");
    assert_eq!(range((0, 10), (100, 1000), "").to_string(), "0.10,100.1000|");
}

/// The face of the last capture covering a point, by brute force.
fn last_cover(caps: &[Capture], q: Point) -> Option<String> {
    caps.iter()
        .filter(|c| c.start <= q && q < c.end)
        .last()
        .map(|c| c.face.clone())
}

fn face_in(ranges: &[RangeSpec], q: Point) -> Option<String> {
    let hits: Vec<&RangeSpec> = ranges.iter().filter(|r| r.start <= q && q <= r.end).collect();
    assert!(hits.len() <= 1);
    hits.first().map(|r| r.face.clone())
}

#[test]
fn each_point_gets_the_face_of_the_last_capture_covering_it() {
    let mut seed: u64 = 12345;
    let mut next = |m: u64| {
        seed = seed.wrapping_mul(6364136223846793005).wrapping_add(1442695040888963407);
        (seed >> 33) % m
    };
    for _ in 0..300 {
        let n = next(7) as usize;
        let mut caps = Vec::new();
        for k in 0..n {
            let s = p(1 + next(2) as usize, 1 + next(10) as usize);
            let e = p(s.row + next(2) as usize, 1 + next(12) as usize);
            caps.push(Capture::new(s, e, format!("f{k}")));
        }
        caps.sort_by_key(|c| c.start);
        let r = resolve(&caps);
        assert_eq!(r.malformed, None);
        for row in 1..4 {
            for col in 0..14 {
                let q = p(row, col);
                assert_eq!(face_in(&r.ranges, q), last_cover(&caps, q), "{caps:?} at {q:?}");
            }
        }
        for w in r.ranges.windows(2) {
            assert!(w[0].end < w[1].start);
        }
        let again: Vec<Capture> =
            r.ranges.iter().map(|x| Capture::new(x.start, x.end.next(), x.face.clone())).collect();
        assert_eq!(resolve(&again).ranges, r.ranges);
    }
}

#[test]
fn zero_width_capture_out_of_order_stops_the_stream() {
    let caps = vec![cap((1, 3), (1, 6), "a"), cap((1, 1), (1, 1), "z"), cap((1, 4), (1, 5), "b")];
    let r = resolve(&caps);
    assert_eq!(r.malformed, Some(1));
    assert_eq!(r.ranges, vec![range((1, 3), (1, 5), "a")]);
}
