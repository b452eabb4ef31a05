use kak_tree_sitter::events::{face_name, HighlightEvent, Loc, Range};

fn loc(line: usize, col: usize) -> Loc {
    Loc { line, col }
}

#[test]
fn one_idx_shifts_both() {
    assert_eq!(loc(0, 0).one_idx(), loc(1, 1));
    assert_eq!(loc(4, 9).one_idx(), loc(5, 10));
}

#[test]
fn source_inside_a_highlight_makes_a_range() {
    let content = b"fn main\nx";
    let events = vec![
        HighlightEvent::HighlightStart(6),
        HighlightEvent::Source { start: 0, end: 2 },
        HighlightEvent::HighlightEnd,
        HighlightEvent::Source { start: 2, end: 3 },
        HighlightEvent::HighlightStart(3),
        HighlightEvent::Source { start: 3, end: 7 },
        HighlightEvent::HighlightEnd,
        HighlightEvent::Source { start: 7, end: 8 },
        HighlightEvent::HighlightStart(14),
        HighlightEvent::Source { start: 8, end: 9 },
        HighlightEvent::HighlightEnd,
    ];
    let result = Range::from_events(content, &events);
    assert!(result.complete);
    let ranges = result.ranges;
    assert_eq!(
        ranges,
        vec![
            Range { start: loc(1, 1), end: loc(1, 2), highlight: 6 },
            Range { start: loc(1, 4), end: loc(1, 7), highlight: 3 },
            Range { start: loc(2, 1), end: loc(2, 1), highlight: 14 },
        ]
    );
    let texts: Vec<Option<String>> = ranges.iter().map(|r| r.to_string()).collect();
    assert_eq!(
        texts,
        vec![
            Some("1.1,1.2|keyword".to_string()),
            Some("1.4,1.7|function".to_string()),
            Some("2.1,2.1|variable".to_string()),
        ]
    );
}

#[test]
fn innermost_highlight_wins() {
    let content = b"abcd";
    let events = vec![
        HighlightEvent::HighlightStart(0),
        HighlightEvent::Source { start: 0, end: 1 },
        HighlightEvent::HighlightStart(9),
        HighlightEvent::Source { start: 1, end: 3 },
        HighlightEvent::HighlightEnd,
        HighlightEvent::Source { start: 3, end: 4 },
        HighlightEvent::HighlightEnd,
    ];
    assert_eq!(
        Range::from_events(content, &events).ranges,
        vec![
            Range { start: loc(1, 1), end: loc(1, 1), highlight: 0 },
            Range { start: loc(1, 2), end: loc(1, 3), highlight: 9 },
            Range { start: loc(1, 4), end: loc(1, 4), highlight: 0 },
        ]
    );
}

#[test]
fn error_event_stops_the_stream() {
    let content = b"ab";
    let events = vec![
        HighlightEvent::HighlightStart(2),
        HighlightEvent::Source { start: 0, end: 1 },
        HighlightEvent::Error,
        HighlightEvent::Source { start: 1, end: 2 },
    ];
    let result = Range::from_events(content, &events);
    assert!(!result.complete);
    assert_eq!(result.ranges, vec![Range { start: loc(1, 1), end: loc(1, 1), highlight: 2 }]);
    let before_error = vec![HighlightEvent::HighlightStart(0), HighlightEvent::Error, HighlightEvent::Source { start: 0, end: 1 }];
    let result = Range::from_events(b"a", &before_error);
    assert!(!result.complete);
    assert_eq!(result.ranges, vec![]);
}

#[test]
fn overlong_source_stops_the_stream() {
    let content = b"ab";
    let events = vec![
        HighlightEvent::HighlightStart(2),
        HighlightEvent::Source { start: 0, end: 1 },
        HighlightEvent::Source { start: 1, end: 5 },
        HighlightEvent::Source { start: 1, end: 2 },
    ];
    let result = Range::from_events(content, &events);
    assert!(!result.complete);
    assert_eq!(result.ranges, vec![Range { start: loc(1, 1), end: loc(1, 1), highlight: 2 }]);
}

#[test]
fn faces_of_highlights() {
    assert_eq!(face_name(0), Some("meta"));
    assert_eq!(face_name(8), Some("identifier"));
    assert_eq!(face_name(17), Some("value"));
    assert_eq!(face_name(18), None);
    let r = Range { start: loc(1, 1), end: loc(1, 1), highlight: 18 };
    assert_eq!(r.to_string(), None);
}
