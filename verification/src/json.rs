//! Trusted boundary to the JSON parser.
//!
//! Everything here hands a byte text to serde_json and brings plain values
//! back. Each result is a function of the text alone, named by an
//! uninterpreted spec function; the verified codec does all shape inference
//! and routing on those plain values.

use vstd::prelude::*;
use crate::message::WireFields;

verus! {

/// The envelope fields that parsing a JSON text yields, or `None` when the
/// text is not a JSON object; a function of the text alone.
pub uninterp spec fn wire_fields_of(payload: Seq<u8>) -> Option<WireFields>;

/// Relies on serde_json::from_str and the serde_json::Value accessors: which
/// envelope fields a JSON text carries depends on that text alone. `params`,
/// `result` and `error` come back as the JSON text of the member.
#[verifier::external_body]
pub(crate) fn parse_wire_fields(payload: &[u8]) -> (r: Option<WireFields>)
    ensures
        r == wire_fields_of(payload@),
{
    let text = std::str::from_utf8(payload).ok()?;
    let v: serde_json::Value = serde_json::from_str(text).ok()?;
    Some(WireFields {
        id: v.get("id").and_then(serde_json::Value::as_u64),
        method: v.get("method").and_then(|x| x.as_str().map(|s| s.to_string())),
        params: v.get("params").map(|x| x.to_string().into_bytes()),
        result: v.get("result").map(|x| x.to_string().into_bytes()),
        error: v.get("error").map(|x| x.to_string().into_bytes()),
    })
}

/// The payload with every occurrence of the spurious `,"meta":{}` member
/// removed; a function of the text alone.
pub uninterp spec fn strip_meta_of(payload: Seq<u8>) -> Seq<u8>;

/// Relies on str::replace: the result is the input with every occurrence of
/// the pattern taken out. This is a compatibility shim for one backend that
/// injects a `"meta":{}` member into otherwise well-formed envelopes; it is
/// one substitution step, and nothing else in the codec depends on it.
#[verifier::external_body]
pub(crate) fn strip_meta(payload: &[u8]) -> (r: Vec<u8>)
    ensures
        r@ == strip_meta_of(payload@),
{
    match std::str::from_utf8(payload) {
        Ok(t) => t.replace(",\"meta\":{}", "").into_bytes(),
        Err(_) => payload.to_vec(),
    }
}

/// The string value at a top-level member of a JSON object, if the text
/// parses and that member is a string; a function of the text alone.
pub uninterp spec fn str_field_of(payload: Seq<u8>, key: Seq<char>) -> Option<Seq<u8>>;

/// Relies on serde_json: object member lookup and string extraction depend
/// on the text alone.
#[verifier::external_body]
pub(crate) fn get_str_field(payload: &[u8], key: &str) -> (r: Option<Vec<u8>>)
    ensures
        match r {
            Some(v) => str_field_of(payload@, key@) == Some(v@),
            None => str_field_of(payload@, key@) is None,
        },
{
    let text = std::str::from_utf8(payload).ok()?;
    let v: serde_json::Value = serde_json::from_str(text).ok()?;
    Some(v.get(key)?.as_str()?.as_bytes().to_vec())
}

/// The contents of a JSON text that is one string value; a function of the
/// text alone.
pub uninterp spec fn string_value_of(payload: Seq<u8>) -> Option<Seq<u8>>;

/// Relies on serde_json: whether a JSON text is a single string value, and
/// that string's contents, depend on the text alone.
#[verifier::external_body]
pub(crate) fn get_string_value(payload: &[u8]) -> (r: Option<Vec<u8>>)
    ensures
        match r {
            Some(v) => string_value_of(payload@) == Some(v@),
            None => string_value_of(payload@) is None,
        },
{
    let text = std::str::from_utf8(payload).ok()?;
    let v: serde_json::Value = serde_json::from_str(text).ok()?;
    Some(v.as_str()?.as_bytes().to_vec())
}

} // verus!
