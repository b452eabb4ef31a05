use kak_tree_sitter::buffer::Buffer;
use kak_tree_sitter::config::{Config, Faces};
use kak_tree_sitter::error::Error;
use kak_tree_sitter::highlight::{highlights_from, styled_captures, Highlighter};
use kak_tree_sitter::languages::{highlight_names, highlighter_config, language_queries, Lang};
use kak_tree_sitter::range::{Capture, Point, RangeSpec};
use kak_tree_sitter::table::Table;
use kak_tree_sitter::tree::SyntaxParser;
use kak_tree_sitter::ts::RawCapture;

fn raw(s: (usize, usize), e: (usize, usize), name: &str) -> RawCapture {
    RawCapture { start_row: s.0, start_column: s.1, end_row: e.0, end_column: e.1, name: name.to_string() }
}

fn faces() -> Faces {
    let mut f = Faces::new();
    f.insert("keyword".to_string(), "kw".to_string());
    f.insert("string".to_string(), "str".to_string());
    f
}

#[test]
fn error_messages() {
    let cases = vec![
        (Error::UnsupportedLanguage { language: "x".to_string() }, "unsupported language: x"),
        (Error::IncompatibleGrammar { language: "x".to_string() }, "incompatible grammar: x"),
        (Error::InvalidQuery { language: "x".to_string() }, "invalid highlight query: x"),
        (Error::UnknownDocument { buffer: "b".to_string() }, "unknown buffer: b"),
        (Error::ParseFailure { buffer: "b".to_string() }, "parsing error: b"),
        (Error::NotParsed { buffer: "b".to_string() }, "buffer not parsed: b"),
        (Error::MalformedRequest, "malformed request"),
        (Error::CaptureStreamError { buffer: "b".to_string() }, "capture stream error: b"),
    ];
    for (e, text) in cases {
        assert_eq!(e.message(), text);
    }
}

#[test]
fn faces_replace_and_look_up() {
    let mut f = faces();
    assert_eq!(f.get("keyword"), Some(&"kw".to_string()));
    assert_eq!(f.get("nothing"), None);
    f.insert("keyword".to_string(), "k2".to_string());
    assert_eq!(f.get("keyword"), Some(&"k2".to_string()));
    let mut c = Config::new();
    assert!(c.faces("rust").is_none());
    c.set_faces("rust".to_string(), f);
    assert_eq!(c.faces("rust").unwrap().get("string"), Some(&"str".to_string()));
}

#[test]
fn table_keeps_one_value_per_key() {
    let mut t: Table<u32> = Table::new();
    t.insert("a".to_string(), 1);
    t.insert("b".to_string(), 2);
    t.insert("a".to_string(), 3);
    assert_eq!(t.len(), 2);
    assert_eq!(t.get("a"), Some(&3));
    assert!(t.contains("b"));
    assert!(!t.contains("c"));
    if let Some(v) = t.get_mut("b") {
        *v = 20;
    }
    assert_eq!(t.get("b"), Some(&20));
    assert!(t.get_mut("c").is_none());
}

#[test]
fn captures_without_face_are_dropped() {
    let stream = vec![raw((0, 0), (0, 2), "keyword"), raw((0, 3), (0, 7), "variable"), raw((1, 4), (1, 9), "string")];
    let (caps, ok) = styled_captures(&stream, &faces());
    assert!(ok);
    assert_eq!(
        caps,
        vec![
            Capture::new(Point::new(1, 1), Point::new(1, 3), "kw".to_string()),
            Capture::new(Point::new(2, 5), Point::new(2, 10), "str".to_string()),
        ]
    );
}

#[test]
fn unusable_point_stops_the_stream() {
    let stream = vec![
        raw((0, 0), (0, 2), "keyword"),
        raw((usize::MAX, 3), (usize::MAX, 7), "keyword"),
        raw((1, 0), (1, 2), "keyword"),
    ];
    let (caps, ok) = styled_captures(&stream, &faces());
    assert!(!ok);
    assert_eq!(caps.len(), 1);
    let h = highlights_from(&stream, &faces());
    assert!(!h.complete);
    assert_eq!(h.ranges, vec![RangeSpec::new(Point::new(1, 1), Point::new(1, 2), "kw".to_string())]);
}

#[test]
fn highlights_of_a_raw_stream() {
    let stream = vec![raw((0, 0), (0, 10), "keyword"), raw((0, 2), (0, 5), "string")];
    let h = highlights_from(&stream, &faces());
    assert!(h.complete);
    let texts: Vec<String> = h.ranges.iter().map(|r| r.to_string()).collect();
    assert_eq!(texts, vec!["1.1,1.2|kw", "1.3,1.5|str", "1.6,1.10|kw"]);
}

#[test]
fn highlighter_runs_the_query_over_the_document() {
    let mut p = SyntaxParser::new("rust").ok().unwrap();
    let source = p.parse(b"fn main() {}".to_vec()).unwrap();
    let h = Highlighter::new("rust").ok().unwrap();
    let mut f = Faces::new();
    f.insert("keyword".to_string(), "keyword".to_string());
    let out = h.highlight(&f, &source);
    assert!(out.complete);
    assert_eq!(out.ranges, vec![RangeSpec::new(Point::new(1, 1), Point::new(1, 2), "keyword".to_string())]);
}

#[test]
fn languages_known_and_unknown() {
    assert!(Lang::try_from("rust").is_ok());
    assert!(matches!(Lang::try_from("cobol"), Err(Error::UnsupportedLanguage { .. })));
    let (_, highlights, injections) = language_queries("rust").unwrap();
    assert!(!highlights.is_empty());
    assert_eq!(injections, "");
    assert!(language_queries("go").is_err());
    assert!(highlighter_config("rust").is_ok());
    assert!(highlighter_config("go").is_err());
    assert_eq!(highlight_names().len(), 19);
    assert!(Highlighter::new("rust").is_ok());
    assert!(Highlighter::new("go").is_err());
}

#[test]
fn parser_parses_rust() {
    let mut p = SyntaxParser::new("rust").ok().unwrap();
    let parsed = p.parse(b"struct A;".to_vec()).unwrap();
    assert_eq!(parsed.content(), b"struct A;");
    assert_eq!(parsed.tree().root_node().kind(), "source_file");
    let b = Buffer::new("rust".to_string(), Some(parsed), b"struct A;".to_vec());
    assert!(b.tree.is_some());
    assert_eq!(b.language, "rust");
    assert!(matches!(SyntaxParser::new("elm"), Err(Error::UnsupportedLanguage { .. })));
}
