//! The three message shapes of the wire protocol, their structural
//! classification, and the verified JSON envelope emitter.
//!
//! A frame is untagged on the wire: its shape is inferred from which fields
//! the envelope carries. `params`, `result` and `error` are opaque JSON
//! texts to this layer; the transport never looks inside them.

use vstd::prelude::*;
use crate::codec::dec_of;
use crate::codec::header_of;
use crate::codec::encode_frame;

verus! {

/// A request expecting a reply correlated by `id`.
#[derive(Clone, Debug, PartialEq, Eq)]
pub struct MethodCall {
    pub id: u64,
    pub method: String,
    /// JSON text of the parameters, if any.
    pub params: Option<Vec<u8>>,
}

/// A fire-and-forget request.
#[derive(Clone, Debug, PartialEq, Eq)]
pub struct Notification {
    pub method: String,
    /// JSON text of the parameters, if any.
    pub params: Option<Vec<u8>>,
}

/// A reply to a method call: the peer's result or its error object,
/// both as opaque JSON text.
#[derive(Clone, Debug, PartialEq, Eq)]
pub enum Output {
    Success { id: u64, result: Vec<u8> },
    Failure { id: u64, error: Vec<u8> },
}

impl Output {
    pub open spec fn spec_id(self) -> u64 {
        match self {
            Output::Success { id, .. } => id,
            Output::Failure { id, .. } => id,
        }
    }

    /// The call this reply answers.
    pub fn id(&self) -> (r: u64)
        ensures
            r == self.spec_id(),
    {
        match self {
            Output::Success { id, .. } => *id,
            Output::Failure { id, .. } => *id,
        }
    }
}

/// One wire message, of exactly one of the three shapes.
#[derive(Clone, Debug, PartialEq, Eq)]
pub enum RawMessage {
    MethodCall(MethodCall),
    Notification(Notification),
    Output(Output),
}

/// The envelope fields a JSON frame can carry, each as a plain value;
/// what deserializing one frame yields before its shape is known.
#[derive(Clone, Debug, PartialEq, Eq)]
pub struct WireFields {
    pub id: Option<u64>,
    pub method: Option<String>,
    pub params: Option<Vec<u8>>,
    pub result: Option<Vec<u8>>,
    pub error: Option<Vec<u8>>,
}

/// The envelope fields that `m` puts on the wire.
pub open spec fn fields_of(m: RawMessage) -> WireFields {
    match m {
        RawMessage::MethodCall(c) => WireFields {
            id: Some(c.id),
            method: Some(c.method),
            params: c.params,
            result: None,
            error: None,
        },
        RawMessage::Notification(n) => WireFields {
            id: None,
            method: Some(n.method),
            params: n.params,
            result: None,
            error: None,
        },
        RawMessage::Output(Output::Success { id, result }) => WireFields {
            id: Some(id),
            method: None,
            params: None,
            result: Some(result),
            error: None,
        },
        RawMessage::Output(Output::Failure { id, error }) => WireFields {
            id: Some(id),
            method: None,
            params: None,
            result: None,
            error: Some(error),
        },
    }
}

/// Shape inference, replies first: a frame carrying `result` or `error` is a
/// reply (carrying both is ambiguous and fails), then a frame with an `id`
/// and a `method` is a call, then a frame with only a `method` is a
/// notification. Anything else fails to decode.
pub open spec fn spec_classify(f: WireFields) -> Option<RawMessage> {
    match (f.result, f.error) {
        (Some(_), Some(_)) => None,
        (Some(r), None) => match f.id {
            Some(i) => Some(RawMessage::Output(Output::Success { id: i, result: r })),
            None => None,
        },
        (None, Some(e)) => match f.id {
            Some(i) => Some(RawMessage::Output(Output::Failure { id: i, error: e })),
            None => None,
        },
        (None, None) => match (f.id, f.method) {
            (Some(i), Some(m)) => Some(
                RawMessage::MethodCall(MethodCall { id: i, method: m, params: f.params }),
            ),
            (None, Some(m)) => Some(
                RawMessage::Notification(Notification { method: m, params: f.params }),
            ),
            _ => None,
        },
    }
}

/// Infer the shape of a decoded envelope.
pub fn classify(f: WireFields) -> (r: Option<RawMessage>)
    ensures
        r == spec_classify(f),
{
    let WireFields { id, method, params, result, error } = f;
    match (result, error) {
        (Some(_), Some(_)) => None,
        (Some(rv), None) => match id {
            Some(i) => Some(RawMessage::Output(Output::Success { id: i, result: rv })),
            None => None,
        },
        (None, Some(e)) => match id {
            Some(i) => Some(RawMessage::Output(Output::Failure { id: i, error: e })),
            None => None,
        },
        (None, None) => match (id, method) {
            (Some(i), Some(m)) => Some(
                RawMessage::MethodCall(MethodCall { id: i, method: m, params }),
            ),
            (None, Some(m)) => Some(
                RawMessage::Notification(Notification { method: m, params }),
            ),
            _ => None,
        },
    }
}

/// Round trip: every message is classified back from exactly the fields it
/// puts on the wire. No well-formed message is lost or mistaken for another
/// shape.
pub proof fn lemma_classify_round_trip(m: RawMessage)
    ensures
        spec_classify(fields_of(m)) == Some(m),
{
    match m {
        RawMessage::MethodCall(c) => {},
        RawMessage::Notification(n) => {},
        RawMessage::Output(o) => {},
    }
}

/// One hexadecimal digit, lower case.
pub open spec fn hex_of(n: u8) -> u8 {
    if n < 10 {
        (48 + n) as u8
    } else {
        (87 + n) as u8
    }
}

/// How one byte of a string appears inside a JSON string literal.
pub open spec fn escape_byte(b: u8) -> Seq<u8> {
    if b == 34 {
        seq![92u8, 34u8]
    } else if b == 92 {
        seq![92u8, 92u8]
    } else if b < 32 {
        seq![92u8, 117u8, 48u8, 48u8, hex_of(b / 16), hex_of(b % 16)]
    } else {
        seq![b]
    }
}

/// JSON string escaping of a byte string.
pub open spec fn escape_of(s: Seq<u8>) -> Seq<u8>
    decreases s.len(),
{
    if s.len() == 0 {
        Seq::empty()
    } else {
        escape_of(s.drop_last()) + escape_byte(s.last())
    }
}

/// Append the JSON-escaped form of `s` to `out`.
pub fn push_json_escaped(out: &mut Vec<u8>, s: &[u8])
    ensures
        final(out)@ == old(out)@ + escape_of(s@),
{
    let mut i: usize = 0;
    while i < s.len()
        invariant
            0 <= i <= s@.len(),
            out@ == old(out)@ + escape_of(s@.take(i as int)),
        decreases s@.len() - i,
    {
        let b = s[i];
        proof {
            assert(s@.take(i as int + 1).drop_last() =~= s@.take(i as int));
            assert(s@.take(i as int + 1).last() == s@[i as int]);
        }
        if b == 34 {
            out.push(92);
            out.push(34);
        } else if b == 92 {
            out.push(92);
            out.push(92);
        } else if b < 32 {
            out.push(92);
            out.push(117);
            out.push(48);
            out.push(48);
            let hi = b / 16;
            let lo = b % 16;
            if hi < 10 {
                out.push(48 + hi);
            } else {
                out.push(87 + hi);
            }
            if lo < 10 {
                out.push(48 + lo);
            } else {
                out.push(87 + lo);
            }
        } else {
            out.push(b);
        }
        proof {
            assert(escape_of(s@.take(i as int + 1)) == escape_of(s@.take(i as int))
                + escape_byte(s@[i as int]));
            assert(out@ =~= old(out)@ + escape_of(s@.take(i as int + 1)));
        }
        i = i + 1;
    }
    proof {
        assert(s@.take(i as int) =~= s@);
    }
}

/// Bytes of the envelope fragment `{"jsonrpc":"2.0","id":`.
pub open spec fn ch_call_open() -> Seq<u8> {
    seq![123u8, 34u8, 106u8, 115u8, 111u8, 110u8, 114u8, 112u8, 99u8, 34u8, 58u8, 34u8, 50u8, 46u8, 48u8, 34u8, 44u8, 34u8, 105u8, 100u8, 34u8, 58u8]
}

/// Bytes of the envelope fragment `{"jsonrpc":"2.0","method":"`.
pub open spec fn ch_notif_open() -> Seq<u8> {
    seq![123u8, 34u8, 106u8, 115u8, 111u8, 110u8, 114u8, 112u8, 99u8, 34u8, 58u8, 34u8, 50u8, 46u8, 48u8, 34u8, 44u8, 34u8, 109u8, 101u8, 116u8, 104u8, 111u8, 100u8, 34u8, 58u8, 34u8]
}

/// Bytes of the envelope fragment `,"method":"`.
pub open spec fn ch_method_key() -> Seq<u8> {
    seq![44u8, 34u8, 109u8, 101u8, 116u8, 104u8, 111u8, 100u8, 34u8, 58u8, 34u8]
}

/// Bytes of the envelope fragment `","params":`.
pub open spec fn ch_params_key() -> Seq<u8> {
    seq![34u8, 44u8, 34u8, 112u8, 97u8, 114u8, 97u8, 109u8, 115u8, 34u8, 58u8]
}

/// Bytes of the envelope fragment `"}`.
pub open spec fn ch_close_quote() -> Seq<u8> {
    seq![34u8, 125u8]
}

/// Bytes of the envelope fragment `,"result":`.
pub open spec fn ch_result_key() -> Seq<u8> {
    seq![44u8, 34u8, 114u8, 101u8, 115u8, 117u8, 108u8, 116u8, 34u8, 58u8]
}

/// Bytes of the envelope fragment `,"error":`.
pub open spec fn ch_error_key() -> Seq<u8> {
    seq![44u8, 34u8, 101u8, 114u8, 114u8, 111u8, 114u8, 34u8, 58u8]
}

fn push_call_open(out: &mut Vec<u8>)
    ensures
        final(out)@ == old(out)@ + ch_call_open(),
{
    out.push(123);
    out.push(34);
    out.push(106);
    out.push(115);
    out.push(111);
    out.push(110);
    out.push(114);
    out.push(112);
    out.push(99);
    out.push(34);
    out.push(58);
    out.push(34);
    out.push(50);
    out.push(46);
    out.push(48);
    out.push(34);
    out.push(44);
    out.push(34);
    out.push(105);
    out.push(100);
    out.push(34);
    out.push(58);
    assert(out@ =~= old(out)@ + ch_call_open());
}

fn push_notif_open(out: &mut Vec<u8>)
    ensures
        final(out)@ == old(out)@ + ch_notif_open(),
{
    out.push(123);
    out.push(34);
    out.push(106);
    out.push(115);
    out.push(111);
    out.push(110);
    out.push(114);
    out.push(112);
    out.push(99);
    out.push(34);
    out.push(58);
    out.push(34);
    out.push(50);
    out.push(46);
    out.push(48);
    out.push(34);
    out.push(44);
    out.push(34);
    out.push(109);
    out.push(101);
    out.push(116);
    out.push(104);
    out.push(111);
    out.push(100);
    out.push(34);
    out.push(58);
    out.push(34);
    assert(out@ =~= old(out)@ + ch_notif_open());
}

fn push_method_key(out: &mut Vec<u8>)
    ensures
        final(out)@ == old(out)@ + ch_method_key(),
{
    out.push(44);
    out.push(34);
    out.push(109);
    out.push(101);
    out.push(116);
    out.push(104);
    out.push(111);
    out.push(100);
    out.push(34);
    out.push(58);
    out.push(34);
    assert(out@ =~= old(out)@ + ch_method_key());
}

fn push_params_key(out: &mut Vec<u8>)
    ensures
        final(out)@ == old(out)@ + ch_params_key(),
{
    out.push(34);
    out.push(44);
    out.push(34);
    out.push(112);
    out.push(97);
    out.push(114);
    out.push(97);
    out.push(109);
    out.push(115);
    out.push(34);
    out.push(58);
    assert(out@ =~= old(out)@ + ch_params_key());
}

fn push_close_quote(out: &mut Vec<u8>)
    ensures
        final(out)@ == old(out)@ + ch_close_quote(),
{
    out.push(34);
    out.push(125);
    assert(out@ =~= old(out)@ + ch_close_quote());
}

fn push_result_key(out: &mut Vec<u8>)
    ensures
        final(out)@ == old(out)@ + ch_result_key(),
{
    out.push(44);
    out.push(34);
    out.push(114);
    out.push(101);
    out.push(115);
    out.push(117);
    out.push(108);
    out.push(116);
    out.push(34);
    out.push(58);
    assert(out@ =~= old(out)@ + ch_result_key());
}

fn push_error_key(out: &mut Vec<u8>)
    ensures
        final(out)@ == old(out)@ + ch_error_key(),
{
    out.push(44);
    out.push(34);
    out.push(101);
    out.push(114);
    out.push(114);
    out.push(111);
    out.push(114);
    out.push(34);
    out.push(58);
    assert(out@ =~= old(out)@ + ch_error_key());
}

/// The byte view of optional params.
pub open spec fn opt_bytes(p: Option<Vec<u8>>) -> Option<Seq<u8>> {
    match p {
        Some(v) => Some(v@),
        None => None,
    }
}

/// How optional params close the envelope after the method string.
pub open spec fn params_tail_bytes(p: Option<Seq<u8>>) -> Seq<u8> {
    match p {
        Some(v) => ch_params_key() + v + seq![125u8],
        None => ch_close_quote(),
    }
}

/// How the optional params close the envelope after the method string.
pub open spec fn params_tail(p: Option<Vec<u8>>) -> Seq<u8> {
    params_tail_bytes(opt_bytes(p))
}

fn push_params_tail(out: &mut Vec<u8>, p: &Option<Vec<u8>>)
    ensures
        final(out)@ == old(out)@ + params_tail(*p),
{
    match p {
        Some(v) => {
            push_params_key(out);
            crate::codec::push_bytes(out, v.as_slice());
            out.push(125);
            assert(out@ =~= old(out)@ + params_tail(*p));
        },
        None => {
            push_close_quote(out);
        },
    }
}

/// The JSON envelope text of `m`: the exact bytes this library puts inside a
/// frame for each message shape.
pub open spec fn envelope_of(m: RawMessage) -> Seq<u8> {
    match m {
        RawMessage::MethodCall(c) => ch_call_open() + dec_of(c.id as nat) + ch_method_key()
            + escape_of(vstd::utf8::encode_utf8(c.method@)) + params_tail(c.params),
        RawMessage::Notification(n) => ch_notif_open() + escape_of(
            vstd::utf8::encode_utf8(n.method@),
        ) + params_tail(n.params),
        RawMessage::Output(Output::Success { id, result }) => ch_call_open() + dec_of(id as nat)
            + ch_result_key() + result@ + seq![125u8],
        RawMessage::Output(Output::Failure { id, error }) => ch_call_open() + dec_of(id as nat)
            + ch_error_key() + error@ + seq![125u8],
    }
}

/// Serialize the envelope of `m`.
pub fn encode_envelope(m: &RawMessage) -> (r: Vec<u8>)
    ensures
        r@ == envelope_of(*m),
{
    let mut out: Vec<u8> = Vec::new();
    match m {
        RawMessage::MethodCall(c) => {
            push_call_open(&mut out);
            crate::codec::push_dec(&mut out, c.id);
            push_method_key(&mut out);
            push_json_escaped(&mut out, c.method.as_str().as_bytes());
            push_params_tail(&mut out, &c.params);
            assert(out@ =~= envelope_of(*m));
        },
        RawMessage::Notification(n) => {
            push_notif_open(&mut out);
            push_json_escaped(&mut out, n.method.as_str().as_bytes());
            push_params_tail(&mut out, &n.params);
            assert(out@ =~= envelope_of(*m));
        },
        RawMessage::Output(Output::Success { id, result }) => {
            push_call_open(&mut out);
            crate::codec::push_dec(&mut out, *id);
            push_result_key(&mut out);
            crate::codec::push_bytes(&mut out, result.as_slice());
            out.push(125);
            assert(out@ =~= envelope_of(*m));
        },
        RawMessage::Output(Output::Failure { id, error }) => {
            push_call_open(&mut out);
            crate::codec::push_dec(&mut out, *id);
            push_error_key(&mut out);
            crate::codec::push_bytes(&mut out, error.as_slice());
            out.push(125);
            assert(out@ =~= envelope_of(*m));
        },
    }
    out
}

/// The full wire form of `m`: its envelope behind a length header whose
/// count is the exact byte length of that envelope.
pub open spec fn wire_of(m: RawMessage) -> Seq<u8> {
    header_of(envelope_of(m).len()) + envelope_of(m)
}

/// The wire bytes of a notification, spelled out over the method's
/// characters and the raw params text.
pub open spec fn notif_wire(method: Seq<char>, params: Option<Seq<u8>>) -> Seq<u8> {
    let env = ch_notif_open() + escape_of(vstd::utf8::encode_utf8(method)) + params_tail_bytes(
        params,
    );
    header_of(env.len()) + env
}

/// The wire bytes of a method call, spelled out over the id, the method's
/// characters and the raw params text.
pub open spec fn call_wire(id: u64, method: Seq<char>, params: Option<Seq<u8>>) -> Seq<u8> {
    let env = ch_call_open() + dec_of(id as nat) + ch_method_key() + escape_of(
        vstd::utf8::encode_utf8(method),
    ) + params_tail_bytes(params);
    header_of(env.len()) + env
}

/// Encode `m` for the wire.
pub fn encode(m: &RawMessage) -> (r: Vec<u8>)
    ensures
        r@ == wire_of(*m),
{
    let env = encode_envelope(m);
    encode_frame(env.as_slice())
}

} // verus!
