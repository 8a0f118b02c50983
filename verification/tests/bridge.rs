use language_client::codec::encode_frame;
use language_client::codec::parse_dec;
use language_client::codec::parse_header;
use language_client::codec::HeaderLine;
use language_client::codec::FrameReader;
use language_client::codec::LineStep;
use language_client::message::MethodCall;
use language_client::message::Notification;
use language_client::message::Output;
use language_client::message::RawMessage;
use language_client::message::WireFields;
use language_client::message::classify;
use language_client::message::encode;
use language_client::message::encode_envelope;
use language_client::client::PayloadOutcome;
use language_client::client::RpcClient;
use language_client::vim::join_lines;
use language_client::vim::class_file_lines;

fn call_msg(id: u64, method: &str, params: Option<&[u8]>) -> RawMessage {
    RawMessage::MethodCall(MethodCall {
        id,
        method: method.to_string(),
        params: params.map(|p| p.to_vec()),
    })
}

fn notif_msg(method: &str, params: Option<&[u8]>) -> RawMessage {
    RawMessage::Notification(Notification {
        method: method.to_string(),
        params: params.map(|p| p.to_vec()),
    })
}

#[test]
fn encode_method_call_exact() {
    let m = call_msg(1, "initialize", Some(br#"{"x":1}"#));
    let env = encode_envelope(&m);
    assert_eq!(
        String::from_utf8(env.clone()).unwrap(),
        r#"{"jsonrpc":"2.0","id":1,"method":"initialize","params":{"x":1}}"#
    );
    let framed = encode(&m);
    let mut expected = format!("Content-Length: {}\r\n\r\n", env.len()).into_bytes();
    expected.extend_from_slice(&env);
    assert_eq!(framed, expected);
}

#[test]
fn encode_notification_without_params() {
    let m = notif_msg("shutdown", None);
    let env = encode_envelope(&m);
    assert_eq!(
        String::from_utf8(env).unwrap(),
        r#"{"jsonrpc":"2.0","method":"shutdown"}"#
    );
}

#[test]
fn encode_outputs_exact() {
    let ok = RawMessage::Output(Output::Success { id: 7, result: b"5".to_vec() });
    assert_eq!(
        String::from_utf8(encode_envelope(&ok)).unwrap(),
        r#"{"jsonrpc":"2.0","id":7,"result":5}"#
    );
    let err = RawMessage::Output(Output::Failure {
        id: 8,
        error: br#"{"code":-32601,"message":"nope"}"#.to_vec(),
    });
    assert_eq!(
        String::from_utf8(encode_envelope(&err)).unwrap(),
        r#"{"jsonrpc":"2.0","id":8,"error":{"code":-32601,"message":"nope"}}"#
    );
}

#[test]
fn content_length_counts_bytes_not_chars() {
    let params = "{\"s\":\"héllo €\"}".as_bytes().to_vec();
    let m = call_msg(2, "shout", Some(&params));
    let env = encode_envelope(&m);
    let text = String::from_utf8(env.clone()).unwrap();
    assert!(text.chars().count() < env.len());
    let framed = encode(&m);
    let header = format!("Content-Length: {}\r\n\r\n", env.len());
    assert!(framed.starts_with(header.as_bytes()));
}

#[test]
fn escaped_method_stays_valid_json() {
    let weird = "a\"b\\c\nd\u{1}e";
    let m = notif_msg(weird, None);
    let env = encode_envelope(&m);
    let v: serde_json::Value = serde_json::from_slice(&env).unwrap();
    assert_eq!(v["method"].as_str().unwrap(), weird);
}

#[test]
fn decode_encode_round_trip_inbound() {
    let mut c = RpcClient::new(Some("rust".to_string()));
    for m in [
        call_msg(9, "textDocument/hover", Some(br#"{"p":[1,2]}"#)),
        notif_msg("initialized", Some(br#"{}"#)),
        notif_msg("exit", None),
    ] {
        let env = encode_envelope(&m);
        assert_eq!(c.handle_payload(&env), PayloadOutcome::Inbound(m));
    }
}

#[test]
fn decode_encode_round_trip_reply() {
    let mut c = RpcClient::new(Some("rust".to_string()));
    let (id, _bytes) = c.call("window/showMessage".to_string(), None, 77);
    let reply = Output::Success { id, result: br#"{"ok":true}"#.to_vec() };
    let env = encode_envelope(&RawMessage::Output(reply.clone()));
    assert_eq!(c.handle_payload(&env), PayloadOutcome::Completed(77, reply));
}

#[test]
fn ambiguous_frame_is_dropped() {
    let mut c = RpcClient::new(Some("rust".to_string()));
    let payload = br#"{"jsonrpc":"2.0","id":1,"result":1,"error":{}}"#;
    assert_eq!(c.handle_payload(payload), PayloadOutcome::Ignored);
    assert_eq!(c.handle_payload(b"not json at all"), PayloadOutcome::Ignored);
    assert_eq!(c.handle_payload(b"   "), PayloadOutcome::Ignored);
}

#[test]
fn classify_shapes() {
    let f = WireFields {
        id: Some(3),
        method: Some("m".to_string()),
        params: None,
        result: None,
        error: None,
    };
    assert_eq!(classify(f), Some(call_msg(3, "m", None)));
    let f = WireFields {
        id: None,
        method: Some("m".to_string()),
        params: Some(b"1".to_vec()),
        result: None,
        error: None,
    };
    assert_eq!(classify(f), Some(notif_msg("m", Some(b"1"))));
    let f = WireFields {
        id: Some(4),
        method: None,
        params: None,
        result: Some(b"null".to_vec()),
        error: None,
    };
    assert_eq!(
        classify(f),
        Some(RawMessage::Output(Output::Success { id: 4, result: b"null".to_vec() }))
    );
    let f = WireFields { id: None, method: None, params: None, result: None, error: None };
    assert_eq!(classify(f), None);
}

#[test]
fn spurious_meta_member_is_stripped() {
    let mut c = RpcClient::new(Some("ts".to_string()));
    let payload = br#"{"jsonrpc":"2.0","method":"m","params":{"a":1,"meta":{}}}"#;
    assert_eq!(
        c.handle_payload(payload),
        PayloadOutcome::Inbound(notif_msg("m", Some(br#"{"a":1}"#)))
    );
}

#[test]
fn header_lines() {
    assert_eq!(parse_header(b"Content-Length: 52\r\n"), HeaderLine::Length(52));
    assert_eq!(parse_header(b"  Content-Length:7  "), HeaderLine::Length(7));
    assert_eq!(parse_header(b"Content-Length: abc\r\n"), HeaderLine::Malformed);
    assert_eq!(parse_header(b"Content-Length\r\n"), HeaderLine::Malformed);
    assert_eq!(parse_header(b"X-Custom: 1\r\n"), HeaderLine::Other);
    assert_eq!(parse_header(b" \r\n"), HeaderLine::Blank);
    assert_eq!(parse_header(b""), HeaderLine::Blank);
}

#[test]
fn decimal_parsing() {
    assert_eq!(parse_dec(b"0"), Some(0));
    assert_eq!(parse_dec(b"52"), Some(52));
    assert_eq!(parse_dec(b"18446744073709551615"), Some(u64::MAX));
    assert_eq!(parse_dec(b"18446744073709551616"), None);
    assert_eq!(parse_dec(b""), None);
    assert_eq!(parse_dec(b"12a"), None);
}

#[test]
fn frame_round_trip() {
    let payload = br#"{"jsonrpc":"2.0","method":"m"}"#;
    let framed = encode_frame(payload);
    let newline = framed.iter().position(|&b| b == b'\n').unwrap();
    assert_eq!(parse_header(&framed[..newline + 1]), HeaderLine::Length(payload.len()));
    assert_eq!(&framed[newline + 3..], &payload[..]);
}

#[test]
fn five_blank_lines_tolerated_sixth_fatal() {
    let mut r = FrameReader::new();
    for _ in 0..5 {
        assert_eq!(r.step_line(b"\r\n"), LineStep::Skip);
    }
    assert_eq!(r.step_line(b"\r\n"), LineStep::Fatal);

    let mut r = FrameReader::new();
    for _ in 0..5 {
        assert_eq!(r.step_line(b"\r\n"), LineStep::Skip);
    }
    assert_eq!(r.step_line(b"Content-Length: 9\r\n"), LineStep::Skip);
    assert_eq!(r.step_line(b"\r\n"), LineStep::NeedPayload(9));
    assert_eq!(r.step_line(b"stray chatter"), LineStep::Skip);
    assert_eq!(r.step_line(b"Content-Length: x"), LineStep::Fatal);
}

#[test]
fn joining_lines() {
    assert_eq!(join_lines(b"a\nb\r\nc"), b"a b c".to_vec());
    assert_eq!(join_lines(b"one line"), b"one line".to_vec());
    assert_eq!(join_lines(b"trailing\n"), b"trailing".to_vec());
    assert_eq!(join_lines(b""), Vec::<u8>::new());
}

#[test]
fn class_file_reply_lines() {
    let reply = br#""class A {\n}\n""#;
    let lines = class_file_lines(reply).unwrap();
    assert_eq!(lines, vec![b"class A {".to_vec(), b"}".to_vec()]);
    assert_eq!(class_file_lines(br#"{"not":"a string"}"#), None);
}
