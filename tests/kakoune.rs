use kak_tree_sitter::kakoune::Kakoune;
use kak_tree_sitter::range::{Point, RangeSpec};

#[test]
fn highlight_command_lists_each_range_quoted() {
    let kak = Kakoune::new("4242".to_string());
    assert_eq!(kak.session(), "4242");
    let ranges = vec![
        RangeSpec::new(Point::new(1, 1), Point::new(1, 1), "kw".to_string()),
        RangeSpec::new(Point::new(1, 2), Point::new(1, 3), "lit".to_string()),
    ];
    assert_eq!(
        kak.highlight("main.rs", &ranges),
        "evaluate-commands -no-hooks -buffer main.rs %[ set-option buffer tree_sitter_ranges \
         %val{timestamp} '1.1,1.1|kw' '1.2,1.3|lit'  ]\n"
    );
}

#[test]
fn highlight_command_with_no_ranges() {
    let kak = Kakoune::new("1".to_string());
    assert_eq!(
        kak.highlight("b", &vec![]),
        "evaluate-commands -no-hooks -buffer b %[ set-option buffer tree_sitter_ranges %val{timestamp}  ]\n"
    );
}

#[test]
fn command_without_buffer() {
    assert_eq!(Kakoune::command(None, "echo hi"), "evaluate-commands -no-hooks %[ echo hi ]\n");
    assert_eq!(
        Kakoune::command(Some("x"), "echo hi"),
        "evaluate-commands -no-hooks -buffer x %[ echo hi ]\n"
    );
}

#[test]
fn debug_command_echoes_message() {
    assert_eq!(
        Kakoune::debug("started"),
        "evaluate-commands -no-hooks %[ echo -debug %(kak-sitter: started) ]\n"
    );
}

#[test]
fn saved_buffers_get_numbered_directories() {
    let mut kak = Kakoune::new("7".to_string());
    let first = kak.save_buffer("/tmp/buffers", "a.rs");
    assert_eq!(first.dir, "/tmp/buffers/0");
    assert!(first.created);
    assert_eq!(first.content_file, "/tmp/buffers/0/content");
    assert_eq!(
        first.command,
        "evaluate-commands -no-hooks -buffer a.rs %[ write -force \"/tmp/buffers/0/content\" ]\n"
    );
    let second = kak.save_buffer("/tmp/buffers", "b.rs");
    assert_eq!(second.dir, "/tmp/buffers/1");
    assert!(second.created);
    let again = kak.save_buffer("/tmp/buffers", "a.rs");
    assert_eq!(again.dir, "/tmp/buffers/0");
    assert!(!again.created);
    assert_eq!(kak.buffer_dir("b.rs"), (1, false));
    assert_eq!(kak.buffer_dir("c.rs"), (2, true));
}

#[test]
fn numbers_past_ten_keep_all_digits() {
    let mut kak = Kakoune::new("7".to_string());
    for i in 0..12 {
        kak.save_buffer("d", &format!("f{i}"));
    }
    assert_eq!(kak.save_buffer("d", "f11").dir, "d/11");
    assert_eq!(kak.save_buffer("d", "new").dir, "d/12");
}

#[test]
fn content_file_is_quoted_as_rust_debug_writes_it() {
    let mut kak = Kakoune::new("7".to_string());
    let saved = kak.save_buffer("/tmp/a\"b\\c", "x");
    assert_eq!(saved.content_file, "/tmp/a\"b\\c/0/content");
    let expected = format!("write -force {:?}", saved.content_file);
    assert_eq!(saved.command, format!("evaluate-commands -no-hooks -buffer x %[ {expected} ]\n"));
    assert!(saved.command.contains("\"/tmp/a\\\"b\\\\c/0/content\""));
}
