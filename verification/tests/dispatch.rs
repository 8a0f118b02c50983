use language_client::client::PayloadOutcome;
use language_client::client::RpcClient;
use language_client::message::MethodCall;
use language_client::message::Notification;
use language_client::message::Output;
use language_client::message::RawMessage;
use language_client::message::encode_envelope;
use language_client::worker::Call;
use language_client::worker::LCError;
use language_client::worker::LanguageClientWorker;
use language_client::worker::State;
use language_client::worker::call_result;
use language_client::vim::QuickfixEntry;
use language_client::vim::status_result;

fn ident(s: &str) -> Option<String> {
    Some(s.to_string())
}

fn worker_with(identities: &[Option<String>]) -> LanguageClientWorker {
    let mut w = LanguageClientWorker::new();
    for i in identities {
        w.register_connection(i.clone(), RpcClient::new(i.clone()));
    }
    w
}

#[test]
fn lookup_unknown_backend_fails() {
    let w = worker_with(&[ident("rust")]);
    assert_eq!(w.lookup(&ident("zig")), Err(LCError::UnknownBackend));
    assert_eq!(w.lookup(&ident("rust")), Ok(0));
    assert!(matches!(
        w.notify(&None, "m".to_string(), None),
        Err(LCError::UnknownBackend)
    ));
}

#[test]
fn call_goes_to_the_named_backend() {
    let mut w = worker_with(&[ident("rust"), ident("go")]);
    let (i, id, bytes) = w
        .call(&ident("go"), "textDocument/definition".to_string(), Some(b"{}".to_vec()), 40)
        .unwrap();
    assert_eq!(i, 1);
    assert_eq!(id, 1);
    let expected = RpcClient::new(ident("go"))
        .call("textDocument/definition".to_string(), Some(b"{}".to_vec()), 40)
        .1;
    assert_eq!(bytes, expected);
    assert_eq!(w.0.addrs[1].1.pending.entries, vec![(1, 40)]);
    assert_eq!(w.0.addrs[0].1.pending.entries.len(), 0);
}

#[test]
fn did_open_notification_registers_document() {
    let mut w = worker_with(&[ident("rust")]);
    let n = Notification {
        method: "textDocument/didOpen".to_string(),
        params: Some(br#"{"uri":"file:///a.rs","text":"fn main() {}"}"#.to_vec()),
    };
    let r = w.handle(Call::Notification(ident("rust"), n), Ok(b"null".to_vec()));
    assert_eq!(r, Ok(None));
    let state: &State = w.lock();
    assert_eq!(state.docs.len(), 1);
    assert_eq!(state.docs[0].0, ident("rust"));
    assert_eq!(state.docs[0].1, b"file:///a.rs".to_vec());
}

#[test]
fn other_notifications_register_nothing() {
    let mut w = worker_with(&[ident("rust")]);
    let n = Notification { method: "textDocument/didChange".to_string(), params: Some(b"{}".to_vec()) };
    assert_eq!(w.handle(Call::Notification(ident("rust"), n), Ok(b"null".to_vec())), Ok(None));
    assert_eq!(w.lock().docs.len(), 0);
}

#[test]
fn inbound_method_call_is_answered_on_its_own_connection() {
    let mut w = worker_with(&[ident("go")]);
    let location = br#"{"uri":"file:///b.go","range":{"line":3}}"#.to_vec();
    let mc = MethodCall {
        id: 7,
        method: "textDocument/definition".to_string(),
        params: Some(b"{}".to_vec()),
    };
    let (i, bytes) = w
        .handle(Call::MethodCall(ident("go"), mc), Ok(location.clone()))
        .unwrap()
        .unwrap();
    assert_eq!(i, 0);
    let expected = RpcClient::new(ident("go")).output(7, Ok(location));
    assert_eq!(bytes, expected);
    let text = String::from_utf8(bytes).unwrap();
    assert!(text.ends_with(r#"{"jsonrpc":"2.0","id":7,"result":{"uri":"file:///b.go","range":{"line":3}}}"#));
}

#[test]
fn handler_failure_becomes_error_reply() {
    let mut w = worker_with(&[ident("go")]);
    let mc = MethodCall { id: 9, method: "m".to_string(), params: None };
    let err = br#"{"code":-32601,"message":"no definition found"}"#.to_vec();
    let (_, bytes) = w
        .handle(Call::MethodCall(ident("go"), mc), Err(err))
        .unwrap()
        .unwrap();
    let text = String::from_utf8(bytes).unwrap();
    assert!(text.contains(r#""error":{"code":-32601"#));
    assert!(text.contains(r#""id":9"#));
}

#[test]
fn fatal_error_on_one_backend_leaves_others_untouched() {
    let mut w = worker_with(&[ident("rust"), ident("go"), None]);
    w.call(&ident("rust"), "a".to_string(), None, 1).unwrap();
    w.call(&ident("go"), "b".to_string(), None, 2).unwrap();
    w.call(&ident("go"), "c".to_string(), None, 3).unwrap();
    w.call(&None, "d".to_string(), None, 4).unwrap();

    let cancelled = w.teardown(&ident("rust")).unwrap();
    assert_eq!(cancelled, vec![1]);
    assert_eq!(w.0.addrs[0].1.pending.entries.len(), 0);
    assert_eq!(w.0.addrs[1].1.pending.entries, vec![(1, 2), (2, 3)]);
    assert_eq!(w.0.addrs[2].1.pending.entries, vec![(1, 4)]);

    let reply = encode_envelope(&RawMessage::Output(Output::Success {
        id: 2,
        result: b"1".to_vec(),
    }));
    let go_client = &mut w.0.addrs[1].1;
    assert_eq!(
        go_client.handle_payload(&reply),
        PayloadOutcome::Completed(3, Output::Success { id: 2, result: b"1".to_vec() })
    );
}

#[test]
fn teardown_of_unknown_backend_fails() {
    let mut w = worker_with(&[ident("rust")]);
    assert_eq!(w.teardown(&ident("zig")), Err(LCError::UnknownBackend));
}

#[test]
fn remote_error_reaches_the_caller_typed() {
    let err = br#"{"code":-32601,"message":"nf"}"#.to_vec();
    assert_eq!(
        call_result(Output::Failure { id: 1, error: err.clone() }),
        Err(LCError::RemoteError(err))
    );
    assert_eq!(
        call_result(Output::Success { id: 1, result: b"4".to_vec() }),
        Ok(b"4".to_vec())
    );
}

#[test]
fn status_replies() {
    assert_eq!(status_result(b" 0 ", LCError::CommandFailed), Ok(()));
    assert_eq!(status_result(b"1", LCError::CommandFailed), Err(LCError::CommandFailed));
    assert_eq!(status_result(b"2", LCError::SetLineFailed), Err(LCError::SetLineFailed));
    assert_eq!(status_result(b"1", LCError::EditFailed), Err(LCError::EditFailed));
    assert_eq!(status_result(b"1", LCError::QuickfixFailed), Err(LCError::QuickfixFailed));
    assert_eq!(
        status_result(b"1", LCError::LocationListFailed),
        Err(LCError::LocationListFailed)
    );
    assert_eq!(
        status_result(b"true", LCError::CommandFailed),
        Err(LCError::InvalidResponse)
    );
}

#[test]
fn registering_twice_replaces_the_connection() {
    let mut w = worker_with(&[ident("rust")]);
    w.call(&ident("rust"), "a".to_string(), None, 1).unwrap();
    assert_eq!(w.0.addrs[0].1.pending.entries.len(), 1);
    w.register_connection(ident("rust"), RpcClient::new(ident("rust")));
    assert_eq!(w.0.addrs.len(), 1);
    assert_eq!(w.0.addrs[0].1.pending.entries.len(), 0);
}

#[test]
fn get_and_update_run_under_the_lock() {
    let mut w = worker_with(&[]);
    let n = w.update(|mut s: State| {
        s.docs.push((None, b"file:///x".to_vec()));
        let n = s.docs.len();
        (s, n)
    });
    assert_eq!(n, 1);
    assert_eq!(w.get(|s: &State| s.docs.len()), 1);
}

#[test]
fn quickfix_entry_is_reused_by_location_list() {
    let e = QuickfixEntry {
        filename: b"/src/main.rs".to_vec(),
        lnum: 3,
        col: 7,
        text: b"mismatched types".to_vec(),
    };
    assert_eq!(e.clone(), e);
}
