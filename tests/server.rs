use kak_tree_sitter::config::{Config, Faces};
use kak_tree_sitter::error::Error;
use kak_tree_sitter::request::{Request, Response};
use kak_tree_sitter::server::Server;

fn rust_config() -> Config {
    let mut faces = Faces::new();
    faces.insert("keyword".to_string(), "keyword".to_string());
    faces.insert("function".to_string(), "function".to_string());
    let mut config = Config::new();
    config.set_faces("rust".to_string(), faces);
    config
}

fn server() -> Server {
    Server::new("99".to_string(), rust_config())
}

fn unknown(buffer: &str) -> Error {
    Error::UnknownDocument { buffer: buffer.to_string() }
}

#[test]
fn highlight_of_parsed_rust_sets_its_ranges() {
    let mut s = server();
    s.new_buffer("a.rs".to_string(), "rust".to_string());
    assert_eq!(s.parse_buffer("a.rs".to_string(), b"fn main() {}".to_vec()), Ok(()));
    let commands = s.highlight("a.rs").unwrap();
    assert_eq!(commands.len(), 1);
    let prefix = "evaluate-commands -no-hooks -buffer a.rs %[ set-option buffer tree_sitter_ranges %val{timestamp} ";
    assert!(commands[0].starts_with(prefix), "{}", commands[0]);
    assert!(commands[0].contains("'1.1,1.2|keyword' "), "{}", commands[0]);
    assert!(commands[0].contains("'1.4,1.7|function' "), "{}", commands[0]);
    assert!(commands[0].ends_with(" ]\n"));
}

#[test]
fn set_language_drops_the_tree() {
    let mut s = server();
    s.new_buffer("a.rs".to_string(), "rust".to_string());
    assert_eq!(s.parse_buffer("a.rs".to_string(), b"fn main() {}".to_vec()), Ok(()));
    assert!(s.highlight("a.rs").is_ok());
    assert_eq!(s.set_buffer_language("a.rs", "rust".to_string()), Ok(()));
    assert_eq!(s.highlight("a.rs"), Err(Error::NotParsed { buffer: "a.rs".to_string() }));
}

#[test]
fn documents_of_one_language_share_its_highlighter() {
    let mut s = server();
    s.new_buffer("a.rs".to_string(), "rust".to_string());
    s.new_buffer("b.rs".to_string(), "rust".to_string());
    assert_eq!(s.parse_buffer("a.rs".to_string(), b"fn a() {}".to_vec()), Ok(()));
    assert_eq!(s.parse_buffer("b.rs".to_string(), b"fn b() {}".to_vec()), Ok(()));
    assert_eq!(s.parser_count(), 1);
    assert!(s.highlight("a.rs").is_ok());
    assert!(s.highlight("b.rs").is_ok());
    assert_eq!(s.highlighter_count(), 1);
}

#[test]
fn highlight_of_unknown_document_changes_nothing() {
    let mut s = server();
    s.new_buffer("a.rs".to_string(), "rust".to_string());
    assert_eq!(s.parse_buffer("a.rs".to_string(), b"fn main() {}".to_vec()), Ok(()));
    let before = s.highlight("a.rs").unwrap();
    assert_eq!(s.highlight("nope"), Err(unknown("nope")));
    assert_eq!(s.highlight("a.rs").unwrap(), before);
    assert_eq!(s.parser_count(), 1);
    assert_eq!(s.highlighter_count(), 1);
}

#[test]
fn highlight_before_parse_is_not_parsed() {
    let mut s = server();
    s.new_buffer("a.rs".to_string(), "rust".to_string());
    assert_eq!(s.highlight("a.rs"), Err(Error::NotParsed { buffer: "a.rs".to_string() }));
}

#[test]
fn unknown_documents_are_reported() {
    let mut s = server();
    assert_eq!(s.set_buffer_language("x", "rust".to_string()), Err(unknown("x")));
    assert_eq!(s.parse_buffer("x".to_string(), vec![]), Err(unknown("x")));
}

#[test]
fn unsupported_language_fails_to_parse_and_keeps_the_document() {
    let mut s = server();
    s.new_buffer("a.py".to_string(), "python".to_string());
    assert_eq!(
        s.parse_buffer("a.py".to_string(), b"x = 1".to_vec()),
        Err(Error::UnsupportedLanguage { language: "python".to_string() })
    );
    assert_eq!(s.parser_count(), 0);
    assert_eq!(s.highlight("a.py"), Err(Error::NotParsed { buffer: "a.py".to_string() }));
}

#[test]
fn language_without_faces_highlights_nothing() {
    let mut s = Server::new("1".to_string(), Config::new());
    s.new_buffer("a.rs".to_string(), "rust".to_string());
    assert_eq!(s.parse_buffer("a.rs".to_string(), b"fn main() {}".to_vec()), Ok(()));
    assert_eq!(s.highlight("a.rs"), Ok(vec![]));
}

#[test]
fn requests_are_dispatched() {
    let mut s = server();
    assert_eq!(
        s.handle_request(Request::ReloadConfig { config: "/etc/c.toml".to_string() }),
        Ok(Response::ReloadConfig { config: "/etc/c.toml".to_string() })
    );
    assert_eq!(
        s.handle_request(Request::NewBuffer { buffer: "m.rs".to_string(), language: "rust".to_string() }),
        Ok(Response::Done)
    );
    assert_eq!(
        s.handle_request(Request::ParseBuffer { buffer: "m.rs".to_string(), content: b"fn f() {}".to_vec() }),
        Ok(Response::Done)
    );
    match s.handle_request(Request::Highlight { buffer: "m.rs".to_string() }) {
        Ok(Response::Commands(c)) => assert_eq!(c.len(), 1),
        other => panic!("{other:?}"),
    }
    assert_eq!(
        s.handle_request(Request::SetLanguage { buffer: "m.rs".to_string(), language: "rust".to_string() }),
        Ok(Response::Done)
    );
    assert_eq!(
        s.handle_request(Request::Highlight { buffer: "m.rs".to_string() }),
        Err(Error::NotParsed { buffer: "m.rs".to_string() })
    );
    assert_eq!(
        s.handle_request(Request::SetLanguage { buffer: "z".to_string(), language: "rust".to_string() }),
        Err(unknown("z"))
    );
}

#[test]
fn reloaded_config_takes_effect() {
    let mut s = Server::new("1".to_string(), Config::new());
    s.new_buffer("a.rs".to_string(), "rust".to_string());
    assert_eq!(s.parse_buffer("a.rs".to_string(), b"fn main() {}".to_vec()), Ok(()));
    assert_eq!(s.highlight("a.rs"), Ok(vec![]));
    s.set_config(rust_config());
    assert_eq!(s.highlight("a.rs").unwrap().len(), 1);
}

#[test]
fn server_keeps_session_name() {
    let s = server();
    assert_eq!(s.kakoune().session(), "99");
}
