use language_client::client::PayloadOutcome;
use language_client::client::RpcClient;
use language_client::message::Output;
use language_client::message::RawMessage;
use language_client::message::encode_envelope;

fn reply(id: u64, result: &[u8]) -> Vec<u8> {
    encode_envelope(&RawMessage::Output(Output::Success { id, result: result.to_vec() }))
}

#[test]
fn replies_in_permuted_order_reach_their_own_callers() {
    let mut c = RpcClient::new(Some("go".to_string()));
    let (id1, _) = c.call("a".to_string(), None, 11);
    let (id2, _) = c.call("b".to_string(), None, 12);
    let (id3, _) = c.call("c".to_string(), None, 13);
    assert_eq!((id1, id2, id3), (1, 2, 3));
    assert_eq!(
        c.handle_payload(&reply(id2, b"2")),
        PayloadOutcome::Completed(12, Output::Success { id: id2, result: b"2".to_vec() })
    );
    assert_eq!(
        c.handle_payload(&reply(id3, b"3")),
        PayloadOutcome::Completed(13, Output::Success { id: id3, result: b"3".to_vec() })
    );
    assert_eq!(
        c.handle_payload(&reply(id1, b"1")),
        PayloadOutcome::Completed(11, Output::Success { id: id1, result: b"1".to_vec() })
    );
}

#[test]
fn unmatched_reply_leaves_pending_callers_alone() {
    let mut c = RpcClient::new(Some("go".to_string()));
    let (id, _) = c.call("a".to_string(), None, 11);
    assert_eq!(
        c.handle_payload(&reply(99, b"0")),
        PayloadOutcome::Unmatched(Output::Success { id: 99, result: b"0".to_vec() })
    );
    assert_eq!(c.pending.entries.len(), 1);
    assert_eq!(
        c.handle_payload(&reply(id, b"1")),
        PayloadOutcome::Completed(11, Output::Success { id, result: b"1".to_vec() })
    );
}

#[test]
fn duplicate_reply_is_unmatched() {
    let mut c = RpcClient::new(Some("go".to_string()));
    let (id, _) = c.call("a".to_string(), None, 5);
    assert!(matches!(c.handle_payload(&reply(id, b"1")), PayloadOutcome::Completed(5, _)));
    assert!(matches!(c.handle_payload(&reply(id, b"1")), PayloadOutcome::Unmatched(_)));
}

#[test]
fn teardown_cancels_every_pending_call() {
    let mut c = RpcClient::new(Some("go".to_string()));
    for slot in [21, 22, 23, 24] {
        c.call("m".to_string(), None, slot);
    }
    assert_eq!(c.cancel_pending(), vec![21, 22, 23, 24]);
    assert_eq!(c.pending.entries.len(), 0);
    assert!(matches!(c.handle_payload(&reply(1, b"1")), PayloadOutcome::Unmatched(_)));
}

#[test]
fn request_ids_start_at_one_and_increase() {
    let mut c = RpcClient::new(None);
    let (id1, f1) = c.call("x".to_string(), None, 1);
    let (id2, f2) = c.call("x".to_string(), None, 2);
    assert_eq!(id1, 1);
    assert_eq!(id2, 2);
    assert_ne!(f1, f2);
}

#[test]
fn notify_registers_nothing() {
    let c = RpcClient::new(None);
    let bytes = c.notify("initialized".to_string(), Some(b"{}".to_vec()));
    let text = String::from_utf8(bytes).unwrap();
    assert!(text.ends_with(r#"{"jsonrpc":"2.0","method":"initialized","params":{}}"#));
    assert_eq!(c.pending.entries.len(), 0);
}

#[test]
fn output_answers_the_peers_own_id() {
    let c = RpcClient::new(None);
    let ok = c.output(7, Ok(b"3".to_vec()));
    assert!(String::from_utf8(ok).unwrap().ends_with(r#"{"jsonrpc":"2.0","id":7,"result":3}"#));
    let err = c.output(7, Err(br#"{"code":1,"message":"m"}"#.to_vec()));
    assert!(String::from_utf8(err)
        .unwrap()
        .ends_with(r#"{"jsonrpc":"2.0","id":7,"error":{"code":1,"message":"m"}}"#));
}
