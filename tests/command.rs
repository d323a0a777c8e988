use lsp_bridge::command::{initialize_request, intent_request, parse_command, split_words, word_str, Intent, Parsed};

#[test]
fn words_split_on_any_whitespace() {
    let s = b"  DEFINITION\tfile:///a.rs  10 4 ";
    let spans = split_words(s);
    let words: Vec<&[u8]> = spans.iter().map(|&(a, b)| &s[a..b]).collect();
    assert_eq!(words, vec![&b"DEFINITION"[..], b"file:///a.rs", b"10", b"4"]);
    assert!(split_words(b"   ").is_empty());
}

#[test]
fn parse_known_commands() {
    match parse_command(b"DEFINITION file:///a.rs 10 4") {
        Parsed::Call(c) => {
            assert_eq!(c.intent, Intent::Definition);
            assert_eq!(c.uri, b"file:///a.rs".to_vec());
            assert_eq!((c.line, c.column), (10, 4));
            assert_eq!(c.uri_at, (11, 23));
        }
        _ => panic!("expected a call"),
    }
    assert!(matches!(parse_command(b"HOVER u 1 2"), Parsed::Call(c) if c.intent == Intent::Hover));
    assert!(matches!(parse_command(b"COMPLETION u 0 0"), Parsed::Call(c) if c.intent == Intent::Completion));
}

#[test]
fn parse_blank_unknown_and_bad_arity() {
    assert!(matches!(parse_command(b""), Parsed::Blank));
    assert!(matches!(parse_command(b" \t "), Parsed::Blank));
    assert!(matches!(parse_command(b"RENAME u 1 2"), Parsed::Unknown));
    assert!(matches!(parse_command(b"definition u 1 2"), Parsed::Unknown));
    assert!(matches!(parse_command(b"HOVER u 1"), Parsed::Unknown));
    assert!(matches!(parse_command(b"COMPLETION u 1 2 3"), Parsed::Unknown));
}

#[test]
fn parse_bad_numbers() {
    assert!(matches!(parse_command(b"HOVER u x 2"), Parsed::BadNumber));
    assert!(matches!(parse_command(b"HOVER u 1 -2"), Parsed::BadNumber));
    assert!(matches!(parse_command(b"HOVER u + 2"), Parsed::BadNumber));
    assert!(matches!(parse_command(b"HOVER u ++1 2"), Parsed::BadNumber));
    assert!(matches!(parse_command(b"HOVER u +1 2"), Parsed::Call(c) if c.line == 1));
    assert!(matches!(parse_command(b"HOVER u 4294967296 0"), Parsed::BadNumber));
}

#[test]
fn lookup_request_text() {
    let text = intent_request(7, Intent::Hover, b"\"file:///x.rs\"", 3, 12);
    assert_eq!(
        String::from_utf8(text).unwrap(),
        "{\"jsonrpc\":\"2.0\",\"id\":7,\"method\":\"textDocument/hover\",\"params\":{\"textDocument\":{\"uri\":\"file:///x.rs\"},\"position\":{\"line\":3,\"character\":12}}}"
    );
}

#[test]
fn initialize_request_text() {
    let text = initialize_request(1, 42, b"\"file:///w\"");
    let v: serde_json::Value = serde_json::from_slice(&text).unwrap();
    assert_eq!(v["id"], 1);
    assert_eq!(v["method"], "initialize");
    assert_eq!(v["params"]["processId"], 42);
    assert_eq!(v["params"]["rootUri"], "file:///w");
    assert_eq!(v["params"]["clientInfo"]["name"], "vim-rust-lsp-bridge");
    assert_eq!(v["params"]["clientInfo"]["version"], "0.1.0");
    assert!(v["params"]["capabilities"].as_object().unwrap().is_empty());
    assert_eq!(v["params"]["trace"], "verbose");
}

#[test]
fn response_labels() {
    assert_eq!(Intent::Definition.response_label(), "DEFINITION_RESPONSE");
    assert_eq!(Intent::Hover.response_label(), "HOVER_RESPONSE");
    assert_eq!(Intent::Completion.response_label(), "COMPLETION_RESPONSE");
}

#[test]
fn word_text_by_range() {
    let line = "HOVER  caf\u{e9}.rs 1 2";
    let spans = split_words(line.as_bytes());
    assert_eq!(word_str(line, spans[1].0, spans[1].1), "caf\u{e9}.rs");
    assert_eq!(word_str(line, spans[0].0, spans[0].1), "HOVER");
}
