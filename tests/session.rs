use lsp_bridge::codec::{decode, encode};
use lsp_bridge::command::Intent;
use lsp_bridge::session::{LspConnection, LspError, Pending, Phase, ProtocolError, RequestKind};
use serde_json::Value;

fn payload_of(frame: &[u8]) -> Value {
    match decode(frame) {
        Ok(Some(f)) => {
            assert_eq!(f.consumed, frame.len());
            serde_json::from_slice(&f.payload).unwrap()
        }
        _ => panic!("expected one whole frame"),
    }
}

fn ready() -> LspConnection {
    let mut c = LspConnection::new();
    c.spawned().unwrap();
    let init = c.initialize(1234, "file:///work").unwrap();
    let req = payload_of(&init);
    assert_eq!(req["method"], "initialize");
    c.feed(&encode(b"{\"jsonrpc\":\"2.0\",\"id\":1,\"result\":{\"capabilities\":{}}}"));
    assert!(c.read_response().unwrap().is_some());
    assert_eq!(c.phase, Phase::Initialized);
    c
}

#[test]
fn lifecycle_reaches_initialized_after_one_exchange() {
    let mut c = LspConnection::new();
    assert_eq!(c.phase, Phase::NotStarted);
    c.spawned().unwrap();
    assert_eq!(c.phase, Phase::Spawned);
    let init = c.initialize(99, "file:///root dir").unwrap();
    let req = payload_of(&init);
    assert_eq!(req["id"], 1);
    assert_eq!(req["jsonrpc"], "2.0");
    assert_eq!(req["params"]["processId"], 99);
    assert_eq!(req["params"]["rootUri"], "file:///root dir");
    assert_eq!(c.pending, Some(Pending { id: 1, kind: RequestKind::Initialize }));
    assert_eq!(c.phase, Phase::Spawned);
    assert_eq!(
        c.initialize(99, "file:///again").err(),
        Some(LspError::Protocol(ProtocolError::OutOfOrder))
    );
    c.feed(&encode(b"{\"jsonrpc\":\"2.0\",\"id\":1,\"result\":{}}"));
    let v = c.read_response().unwrap().unwrap().value;
    assert_eq!(v["id"], 1);
    assert_eq!(c.phase, Phase::Initialized);
    assert_eq!(c.pending, None);
    assert!(c.inbox.is_empty());
}

#[test]
fn root_uri_is_escaped_as_json() {
    let mut c = LspConnection::new();
    c.spawned().unwrap();
    let init = c.initialize(1, "C:\\dir \"q\"").unwrap();
    let text = String::from_utf8(init).unwrap();
    assert!(text.contains("\"rootUri\":\"C:\\\\dir \\\"q\\\"\""));
    assert_eq!(payload_of(text.as_bytes())["params"]["rootUri"], "C:\\dir \"q\"");
}

#[test]
fn intent_before_handshake_is_refused() {
    let mut c = LspConnection::new();
    c.spawned().unwrap();
    assert_eq!(
        c.goto_definition("file:///a.rs", "1", "2").err(),
        Some(LspError::Protocol(ProtocolError::OutOfOrder))
    );
    assert_eq!(c.handle_vim_command("HOVER file:///a.rs 1 2").err(), Some(LspError::Protocol(ProtocolError::OutOfOrder)));
    assert_eq!(c.next_id, 1);
}

#[test]
fn definition_end_to_end() {
    let mut c = ready();
    let frame = c.handle_vim_command("DEFINITION file:///a.rs 10 4").unwrap().unwrap();
    let req = payload_of(&frame);
    assert_eq!(req["method"], "textDocument/definition");
    assert_eq!(req["params"]["position"]["line"], 10);
    assert_eq!(req["params"]["position"]["character"], 4);
    assert_eq!(req["params"]["textDocument"]["uri"], "file:///a.rs");
    let id = req["id"].as_u64().unwrap();
    assert_eq!(id, 2);
    let canned = format!(
        "{{\"jsonrpc\":\"2.0\",\"id\":{},\"result\":[{{\"uri\":\"file:///b.rs\",\"range\":{{\"start\":{{\"line\":1,\"character\":0}},\"end\":{{\"line\":1,\"character\":5}}}}}}]}}",
        id
    );
    c.feed(&encode(canned.as_bytes()));
    let reply = c.read_response().unwrap().unwrap();
    assert_eq!(reply.payload, canned.as_bytes().to_vec());
    let resp = reply.value;
    let expected: Value = serde_json::from_str(&canned).unwrap();
    assert_eq!(resp, expected);
    let line = format!("{}: {}", Intent::Definition.response_label(), resp);
    assert!(line.starts_with("DEFINITION_RESPONSE: {"));
    assert_eq!(c.pending, None);
}

#[test]
fn ids_are_unique_per_request() {
    let mut c = ready();
    let mut seen = Vec::new();
    for k in 0..3u64 {
        let frame = c.hover("file:///a.rs", "1", "1").unwrap();
        let id = payload_of(&frame)["id"].as_u64().unwrap();
        assert!(!seen.contains(&id));
        seen.push(id);
        assert_eq!(id, 2 + k);
        c.feed(&encode(format!("{{\"id\":{},\"result\":null}}", id).as_bytes()));
        assert!(c.read_response().unwrap().is_some());
    }
}

#[test]
fn hover_and_completion_requests() {
    let mut c = ready();
    let req = payload_of(&c.hover("file:///h.rs", "0", "7").unwrap());
    assert_eq!(req["method"], "textDocument/hover");
    assert_eq!(req["params"]["position"]["character"], 7);
    c.feed(&encode(b"{\"id\":2,\"result\":null}"));
    c.read_response().unwrap().unwrap();
    let req = payload_of(&c.completion("file:///c.rs", "5", "0").unwrap());
    assert_eq!(req["method"], "textDocument/completion");
    assert_eq!(req["params"]["position"]["line"], 5);
}

#[test]
fn unknown_commands_change_nothing_and_send_nothing() {
    let mut c = ready();
    for cmd in ["", "   ", "RENAME file:///a.rs 1 2", "HOVER file:///a.rs 1", "DEFINITION a b c d"] {
        assert_eq!(c.handle_vim_command(cmd), Ok(None), "command {:?}", cmd);
        assert_eq!(c.phase, Phase::Initialized);
        assert_eq!(c.next_id, 2);
        assert_eq!(c.pending, None);
        assert!(c.inbox.is_empty());
    }
}

#[test]
fn bad_numbers_are_invalid_arguments() {
    let mut c = ready();
    assert_eq!(c.handle_vim_command("HOVER file:///a.rs x 2").err(), Some(LspError::InvalidArgument));
    assert_eq!(c.goto_definition("file:///a.rs", "1", "-1").err(), Some(LspError::InvalidArgument));
    assert_eq!(c.goto_definition("file:///a.rs", "+", "1").err(), Some(LspError::InvalidArgument));
    assert_eq!(c.next_id, 2);
    assert_eq!(c.pending, None);
}

#[test]
fn second_request_while_pending_is_refused() {
    let mut c = ready();
    c.hover("file:///a.rs", "1", "1").unwrap();
    assert_eq!(
        c.completion("file:///a.rs", "1", "1").err(),
        Some(LspError::Protocol(ProtocolError::OutOfOrder))
    );
}

#[test]
fn output_closed_before_header_fails_with_io() {
    let mut c = ready();
    c.hover("file:///a.rs", "1", "1").unwrap();
    c.feed(b"Content-Len");
    assert_eq!(c.read_response().err(), None);
    c.close_input();
    assert_eq!(c.read_response().err(), Some(LspError::Io));
    assert_eq!(c.phase, Phase::Terminated);
}

#[test]
fn short_payload_waits_then_fails_with_io() {
    let mut c = ready();
    c.hover("file:///a.rs", "1", "1").unwrap();
    c.feed(b"Content-Length: 100\r\n\r\n{\"id\":2}");
    assert!(matches!(c.read_response(), Ok(None)));
    assert_eq!(c.phase, Phase::Initialized);
    c.close_input();
    assert_eq!(c.read_response().err(), Some(LspError::Io));
}

#[test]
fn reply_split_across_reads() {
    let mut c = ready();
    c.hover("file:///a.rs", "1", "1").unwrap();
    let framed = encode("{\"id\":2,\"result\":\"é\"}".as_bytes());
    for b in &framed[..framed.len() - 1] {
        c.feed(std::slice::from_ref(b));
        assert!(matches!(c.read_response(), Ok(None)));
    }
    c.feed(&framed[framed.len() - 1..]);
    let v = c.read_response().unwrap().unwrap().value;
    assert_eq!(v["result"], "é");
}

#[test]
fn notifications_and_stale_replies_are_passed_over() {
    let mut c = ready();
    c.hover("file:///a.rs", "1", "1").unwrap();
    c.feed(&encode(b"{\"jsonrpc\":\"2.0\",\"method\":\"window/logMessage\",\"params\":{}}"));
    c.feed(&encode(b"{\"id\":1,\"result\":null}"));
    c.feed(&encode(b"{\"id\":2,\"result\":\"ok\"}"));
    c.feed(b"Content-Length: 4\r\n");
    let v = c.read_response().unwrap().unwrap().value;
    assert_eq!(v["result"], "ok");
    assert_eq!(c.inbox, b"Content-Length: 4\r\n".to_vec());
}

#[test]
fn malformed_header_is_a_protocol_error() {
    let mut c = ready();
    c.hover("file:///a.rs", "1", "1").unwrap();
    c.feed(b"Content-Length: ten\r\n\r\n");
    assert_eq!(c.read_response().err(), Some(LspError::Protocol(ProtocolError::BadLength)));
    assert_eq!(c.phase, Phase::Terminated);
    let mut d = ready();
    d.hover("file:///a.rs", "1", "1").unwrap();
    d.feed(b"X-Other: 1\r\n\r\n{}");
    assert_eq!(d.read_response().err(), Some(LspError::Protocol(ProtocolError::MissingLength)));
}

#[test]
fn invalid_json_fails_the_request_only() {
    let mut c = ready();
    c.hover("file:///a.rs", "1", "1").unwrap();
    c.feed(&encode(b"{not json"));
    assert_eq!(c.read_response().err(), Some(LspError::Decode));
    assert_eq!(c.phase, Phase::Initialized);
    assert_eq!(c.pending, None);
}

#[test]
fn invalid_json_during_handshake_ends_the_session() {
    let mut c = LspConnection::new();
    c.spawned().unwrap();
    c.initialize(1, "file:///w").unwrap();
    c.feed(&encode(b"]"));
    assert_eq!(c.read_response().err(), Some(LspError::Decode));
    assert_eq!(c.phase, Phase::Terminated);
}

#[test]
fn terminated_session_refuses_everything() {
    let mut c = ready();
    c.terminate();
    assert_eq!(c.phase, Phase::Terminated);
    assert_eq!(c.hover("file:///a.rs", "1", "1").err(), Some(LspError::SessionClosed));
    assert_eq!(c.read_response().err(), Some(LspError::SessionClosed));
    assert_eq!(c.send_message(b"{}").err(), Some(LspError::SessionClosed));
    assert_eq!(c.spawned().err(), Some(LspError::SessionClosed));
}

#[test]
fn read_without_pending_request_is_refused() {
    let mut c = ready();
    assert_eq!(c.read_response().err(), Some(LspError::Protocol(ProtocolError::OutOfOrder)));
}

#[test]
fn complete_correlates_by_id() {
    let mut c = ready();
    c.hover("file:///a.rs", "1", "1").unwrap();
    assert!(!c.complete(None));
    assert!(!c.complete(Some(3)));
    assert!(c.pending.is_some());
    assert!(c.complete(Some(2)));
    assert!(c.pending.is_none());
    assert!(!c.complete(Some(2)));
}

#[test]
fn plus_sign_numbers_are_accepted() {
    let mut c = ready();
    let req = payload_of(&c.goto_definition("file:///a.rs", "+5", "+0").unwrap());
    assert_eq!(req["params"]["position"]["line"], 5);
    assert_eq!(req["params"]["position"]["character"], 0);
}

#[test]
fn two_frames_in_one_read_are_both_kept() {
    let mut c = ready();
    c.hover("file:///a.rs", "1", "1").unwrap();
    let mut bytes = encode(b"{\"id\":2,\"result\":{}}");
    bytes.extend_from_slice(&encode(b"{\"id\":3,\"result\":{\"a\":1}}"));
    c.feed(&bytes);
    c.close_input();
    let first = c.read_response().unwrap().unwrap();
    assert_eq!(first.payload, b"{\"id\":2,\"result\":{}}".to_vec());
    assert_eq!(c.inbox, encode(b"{\"id\":3,\"result\":{\"a\":1}}"));
    c.hover("file:///a.rs", "1", "1").unwrap();
    let second = c.read_response().unwrap().unwrap();
    assert_eq!(second.value["result"]["a"], 1);
    assert!(c.inbox.is_empty());
}

#[test]
fn unicode_uri_is_sent_whole() {
    let mut c = ready();
    let frame = c.handle_vim_command("HOVER\tfile:///d\u{e9}j\u{e0}/\u{65e5}.rs 3 7").unwrap().unwrap();
    let req = payload_of(&frame);
    assert_eq!(req["params"]["textDocument"]["uri"], "file:///d\u{e9}j\u{e0}/\u{65e5}.rs");
    assert_eq!(req["params"]["position"]["line"], 3);
    assert_eq!(req["params"]["position"]["character"], 7);
}

#[test]
fn handshake_cut_short_fails_with_io() {
    let mut c = LspConnection::new();
    c.spawned().unwrap();
    c.initialize(5, "file:///w").unwrap();
    c.feed(b"Content-Length: 50\r\n\r\n{\"id\":1}");
    assert!(matches!(c.read_response(), Ok(None)));
    c.close_input();
    assert_eq!(c.read_response().err(), Some(LspError::Io));
    assert_eq!(c.phase, Phase::Terminated);
}

#[test]
fn root_uri_control_bytes_are_escaped() {
    let mut c = LspConnection::new();
    c.spawned().unwrap();
    let init = c.initialize(1, "a\u{1}\tb\u{7f}/").unwrap();
    let text = String::from_utf8(init).unwrap();
    assert!(text.contains("\"rootUri\":\"a\\u0001\\tb\u{7f}/\""));
}
