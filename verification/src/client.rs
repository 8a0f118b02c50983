//! One connection to one peer: request-id allocation, the correlation table
//! matching inbound replies to pending calls, and the reader-side step
//! functions that turn framed payloads into routed outcomes.

use vstd::prelude::*;
use crate::codec::FrameReader;
use crate::codec::LineStep;
use crate::codec::spec_step_line;
use crate::codec::trim;
use crate::codec::trim_of;
use crate::message::MethodCall;
use crate::message::Notification;
use crate::message::Output;
use crate::message::RawMessage;
use crate::message::classify;
use crate::message::spec_classify;
use crate::message::wire_of;
use crate::message::encode;
use crate::json::wire_fields_of;
use crate::json::strip_meta_of;
use crate::json::parse_wire_fields;
use crate::json::strip_meta;

verus! {

/// Is some entry for `id` in the table?
pub open spec fn contains_id(s: Seq<(u64, u64)>, id: u64) -> bool {
    exists|i: int| 0 <= i < s.len() && (#[trigger] s[i]).0 == id
}

/// Index of the entry for `id`.
pub open spec fn idx_of(s: Seq<(u64, u64)>, id: u64) -> int {
    choose|i: int| 0 <= i < s.len() && (#[trigger] s[i]).0 == id
}

/// The completion slot registered for `id`.
pub open spec fn slot_of(s: Seq<(u64, u64)>, id: u64) -> u64 {
    s[idx_of(s, id)].1
}

/// No id has two entries.
pub open spec fn unique_ids(s: Seq<(u64, u64)>) -> bool {
    forall|i: int, j: int|
        0 <= i < j < s.len() ==> (#[trigger] s[i]).0 != (#[trigger] s[j]).0
}

/// Removing one entry leaves every other id's entry in place.
pub proof fn lemma_remove_keeps_others(s: Seq<(u64, u64)>, k: int, id2: u64)
    requires
        unique_ids(s),
        0 <= k < s.len(),
        s[k].0 != id2,
    ensures
        unique_ids(s.remove(k)),
        contains_id(s.remove(k), id2) == contains_id(s, id2),
        contains_id(s, id2) ==> slot_of(s.remove(k), id2) == slot_of(s, id2),
{
    let t = s.remove(k);
    s.remove_ensures(k);
    assert(forall|i: int| 0 <= i < k ==> #[trigger] t[i] == s[i]);
    assert(forall|i: int| k <= i < t.len() ==> #[trigger] t[i] == s[i + 1]);
    assert forall|i: int, j: int| 0 <= i < j < t.len() implies (#[trigger] t[i]).0 != (
    #[trigger] t[j]).0 by {
        let si = if i < k { i } else { i + 1 };
        let sj = if j < k { j } else { j + 1 };
        assert(t[i] == s[si]);
        assert(t[j] == s[sj]);
    }
    if contains_id(s, id2) {
        let i = choose|i: int| 0 <= i < s.len() && (#[trigger] s[i]).0 == id2;
        assert(i != k);
        if i < k {
            assert(t[i] == s[i]);
        } else {
            assert(t[i - 1] == s[i]);
        }
        assert(contains_id(t, id2));
    }
    if contains_id(t, id2) {
        let i = choose|i: int| 0 <= i < t.len() && (#[trigger] t[i]).0 == id2;
        if i < k {
            assert(s[i] == t[i]);
            assert(contains_id(s, id2));
        } else {
            assert(s[i + 1] == t[i]);
            assert(contains_id(s, id2));
        }
    }
    if contains_id(s, id2) {
        let i = idx_of(s, id2);
        assert(0 <= i < s.len() && s[i].0 == id2);
        let j = idx_of(t, id2);
        assert(0 <= j < t.len() && t[j].0 == id2);
        let sj = if j < k { j } else { j + 1 };
        assert(t[j] == s[sj]);
        assert(sj == i);
        assert(slot_of(t, id2) == slot_of(s, id2));
    }
}

/// Correlation: replies delivered in any order resolve each pending call to
/// its own slot. Consuming the reply for one id never moves, drops or
/// rebinds the entry of another, so any permutation of deliveries hands
/// every caller exactly the slot it registered.
pub proof fn lemma_correlation_isolated(s: Seq<(u64, u64)>, a: u64, b: u64)
    requires
        unique_ids(s),
        contains_id(s, a),
        contains_id(s, b),
        a != b,
    ensures
        contains_id(s.remove(idx_of(s, a)), b),
        slot_of(s.remove(idx_of(s, a)), b) == slot_of(s, b),
{
    let k = idx_of(s, a);
    assert(0 <= k < s.len() && s[k].0 == a);
    lemma_remove_keeps_others(s, k, b);
}

/// Map from outstanding request id to its one-shot completion slot.
pub struct CorrelationTable {
    pub entries: Vec<(u64, u64)>,
}

impl CorrelationTable {
    pub open spec fn wf(self) -> bool {
        unique_ids(self.entries@)
    }

    pub fn new() -> (r: CorrelationTable)
        ensures
            r.entries@ == Seq::<(u64, u64)>::empty(),
            r.wf(),
    {
        CorrelationTable { entries: Vec::new() }
    }

    pub fn contains(&self, id: u64) -> (r: bool)
        ensures
            r == contains_id(self.entries@, id),
    {
        let mut i: usize = 0;
        while i < self.entries.len()
            invariant
                0 <= i <= self.entries@.len(),
                forall|j: int| 0 <= j < i ==> (#[trigger] self.entries@[j]).0 != id,
            decreases self.entries@.len() - i,
        {
            if self.entries[i].0 == id {
                return true;
            }
            i = i + 1;
        }
        false
    }

    /// Register a pending call. Insertion happens before the frame is
    /// written, so the reader can never see the reply first.
    pub fn insert(&mut self, id: u64, slot: u64)
        requires
            old(self).wf(),
            !contains_id(old(self).entries@, id),
        ensures
            final(self).entries@ == old(self).entries@.push((id, slot)),
            final(self).wf(),
    {
        self.entries.push((id, slot));
        proof {
            let s = old(self).entries@;
            let t = self.entries@;
            assert forall|i: int, j: int| 0 <= i < j < t.len() implies (#[trigger] t[i]).0 != (
            #[trigger] t[j]).0 by {
                if j < s.len() {
                    assert(t[i] == s[i] && t[j] == s[j]);
                } else {
                    assert(t[i] == s[i]);
                    assert(s[i].0 != id);
                }
            }
        }
    }

    /// Consume the entry for `id`: the first matching reply resolves the
    /// call, and an unknown id touches nothing.
    pub fn take(&mut self, id: u64) -> (r: Option<u64>)
        requires
            old(self).wf(),
        ensures
            final(self).wf(),
            !contains_id(old(self).entries@, id) ==> r is None && final(self).entries@ == old(
                self,
            ).entries@,
            contains_id(old(self).entries@, id) ==> r == Some(slot_of(old(self).entries@, id))
                && final(self).entries@ == old(self).entries@.remove(
                idx_of(old(self).entries@, id),
            ),
            forall|id2: u64|
                id2 != id ==> #[trigger] contains_id(final(self).entries@, id2) == contains_id(
                    old(self).entries@,
                    id2,
                ),
            forall|id2: u64|
                id2 != id && contains_id(old(self).entries@, id2) ==> #[trigger] slot_of(
                    final(self).entries@,
                    id2,
                ) == slot_of(old(self).entries@, id2),
    {
        let ghost s0 = old(self).entries@;
        let mut i: usize = 0;
        while i < self.entries.len()
            invariant
                self.entries@ == s0,
                s0 == old(self).entries@,
                unique_ids(s0),
                0 <= i <= s0.len(),
                forall|j: int| 0 <= j < i ==> (#[trigger] s0[j]).0 != id,
            decreases s0.len() - i,
        {
            if self.entries[i].0 == id {
                let slot = self.entries[i].1;
                proof {
                    assert(contains_id(s0, id));
                    let k = idx_of(s0, id);
                    assert(0 <= k < s0.len() && s0[k].0 == id);
                    assert(k == i as int);
                }
                let _entry = self.entries.remove(i);
                proof {
                    assert forall|id2: u64| id2 != id implies #[trigger] contains_id(
                        self.entries@,
                        id2,
                    ) == contains_id(s0, id2) by {
                        lemma_remove_keeps_others(s0, i as int, id2);
                    }
                    assert forall|id2: u64|
                        id2 != id && contains_id(s0, id2) implies #[trigger] slot_of(
                        self.entries@,
                        id2,
                    ) == slot_of(s0, id2) by {
                        lemma_remove_keeps_others(s0, i as int, id2);
                    }
                    let other: u64 = if id == 0 { 1 } else { 0 };
                    lemma_remove_keeps_others(s0, i as int, other);
                }
                return Some(slot);
            }
            i = i + 1;
        }
        None
    }

    /// Hand back every registered completion slot and empty the table; what
    /// teardown uses to fail all pending callers.
    pub fn drain(&mut self) -> (r: Vec<u64>)
        ensures
            r@ == old(self).entries@.map_values(|p: (u64, u64)| p.1),
            final(self).entries@.len() == 0,
            final(self).wf(),
    {
        let ghost s0 = old(self).entries@;
        let mut out: Vec<u64> = Vec::new();
        let mut i: usize = 0;
        while i < self.entries.len()
            invariant
                self.entries@ == s0,
                0 <= i <= s0.len(),
                out@ == s0.take(i as int).map_values(|p: (u64, u64)| p.1),
            decreases s0.len() - i,
        {
            out.push(self.entries[i].1);
            proof {
                assert(s0.take(i as int + 1).map_values(|p: (u64, u64)| p.1) =~= s0.take(
                    i as int,
                ).map_values(|p: (u64, u64)| p.1).push(s0[i as int].1));
            }
            i = i + 1;
        }
        self.entries.clear();
        proof {
            assert(s0.take(s0.len() as int) =~= s0);
        }
        out
    }
}

/// What one framed payload turned out to be, once decoded and correlated.
#[derive(Debug, PartialEq, Eq)]
pub enum PayloadOutcome {
    /// Blank, undecodable or ambiguous payload: logged and dropped, the
    /// reader continues.
    Ignored,
    /// An inbound call or notification from the peer, to be routed to the
    /// dispatcher tagged with this connection's identity.
    Inbound(RawMessage),
    /// A reply matched to a pending call: its completion slot and the reply.
    Completed(u64, Output),
    /// A reply whose id has no pending call: dropped without touching any
    /// pending caller.
    Unmatched(Output),
}

/// The message a framed payload decodes to, if any: blank payloads, invalid
/// JSON and ambiguous envelopes decode to nothing.
pub open spec fn spec_payload_msg(payload: Seq<u8>) -> Option<RawMessage> {
    if trim_of(payload).len() == 0 {
        None
    } else {
        match wire_fields_of(strip_meta_of(trim_of(payload))) {
            None => None,
            Some(f) => spec_classify(f),
        }
    }
}

/// The method-call frame `call` sends for a given id.
pub open spec fn call_message(id: u64, method: String, params: Option<Vec<u8>>) -> RawMessage {
    RawMessage::MethodCall(MethodCall { id, method, params })
}

/// The frame `notify` sends.
pub open spec fn notify_message(method: String, params: Option<Vec<u8>>) -> RawMessage {
    RawMessage::Notification(Notification { method, params })
}

/// The reply frame `output` sends for a handler outcome.
pub open spec fn output_message(id: u64, result: Result<Vec<u8>, Vec<u8>>) -> RawMessage {
    match result {
        Ok(v) => RawMessage::Output(Output::Success { id, result: v }),
        Err(e) => RawMessage::Output(Output::Failure { id, error: e }),
    }
}

/// One connection to one peer. Holds the caller-side request-id counter and
/// the reader-side framing and correlation state; an embedding runtime owns
/// the actual byte stream and feeds lines and payloads in.
pub struct RpcClient {
    /// Which backend this connection serves; `None` is the editor itself.
    pub language_id: Option<String>,
    /// The last request id issued; ids start at 1 and increase.
    pub last_id: u64,
    /// Framing state of the background reader.
    pub reader: FrameReader,
    /// Outstanding calls awaiting a reply.
    pub pending: CorrelationTable,
}

impl RpcClient {
    pub open spec fn wf(self) -> bool {
        &&& self.pending.wf()
        &&& self.reader.wf()
        &&& forall|i: int|
            0 <= i < self.pending.entries@.len() ==> (#[trigger] self.pending.entries@[i]).0
                <= self.last_id
    }

    pub fn new(language_id: Option<String>) -> (r: RpcClient)
        ensures
            r.language_id == language_id,
            r.last_id == 0,
            r.pending.entries@ == Seq::<(u64, u64)>::empty(),
            r.reader == (FrameReader { blanks: 0, pending: None::<usize> }),
            r.wf(),
    {
        RpcClient {
            language_id,
            last_id: 0,
            reader: FrameReader::new(),
            pending: CorrelationTable::new(),
        }
    }

    /// Issue a call: allocate the next request id, register the completion
    /// slot before anything is written, and produce the framed bytes. Each
    /// id is issued at most once, so it is never reused while outstanding.
    pub fn call(&mut self, method: String, params: Option<Vec<u8>>, slot: u64) -> (r: (
        u64,
        Vec<u8>,
    ))
        requires
            old(self).wf(),
            old(self).last_id < u64::MAX,
        ensures
            final(self).wf(),
            r.0 == old(self).last_id + 1,
            final(self).last_id == r.0,
            final(self).language_id == old(self).language_id,
            final(self).reader == old(self).reader,
            final(self).pending.entries@ == old(self).pending.entries@.push((r.0, slot)),
            r.1@ == wire_of(call_message(r.0, method, params)),
    {
        let id = self.last_id + 1;
        self.last_id = id;
        proof {
            assert(!contains_id(self.pending.entries@, id));
        }
        let msg = RawMessage::MethodCall(MethodCall { id, method, params });
        let bytes = encode(&msg);
        self.pending.insert(id, slot);
        proof {
            let t = self.pending.entries@;
            let s = old(self).pending.entries@;
            assert forall|i: int| 0 <= i < t.len() implies (#[trigger] t[i]).0 <= self.last_id by {
                if i < s.len() {
                    assert(t[i] == s[i]);
                }
            }
        }
        (id, bytes)
    }

    /// Fire-and-forget: the framed bytes of a notification. Never waits for
    /// a reply and registers nothing.
    pub fn notify(&self, method: String, params: Option<Vec<u8>>) -> (r: Vec<u8>)
        ensures
            r@ == wire_of(notify_message(method, params)),
    {
        encode(&RawMessage::Notification(Notification { method, params }))
    }

    /// Answer a call the peer issued to us: the framed `Output` bytes for
    /// the given outcome, correlated to the peer's own id.
    pub fn output(&self, id: u64, result: Result<Vec<u8>, Vec<u8>>) -> (r: Vec<u8>)
        ensures
            r@ == wire_of(output_message(id, result)),
    {
        match result {
            Ok(v) => encode(&RawMessage::Output(Output::Success { id, result: v })),
            Err(e) => encode(&RawMessage::Output(Output::Failure { id, error: e })),
        }
    }

    /// Feed one line read from the stream to the framing state machine.
    pub fn step_line(&mut self, line: &[u8]) -> (r: LineStep)
        requires
            old(self).wf(),
        ensures
            final(self).wf(),
            final(self).reader == spec_step_line(old(self).reader, line@).0,
            r == spec_step_line(old(self).reader, line@).1,
            final(self).pending == old(self).pending,
            final(self).last_id == old(self).last_id,
            final(self).language_id == old(self).language_id,
    {
        self.reader.step_line(line)
    }

    /// Decode one framed payload and correlate it: a reply resolves its own
    /// pending call and no other; a reply nobody asked for is dropped with
    /// every pending entry untouched; calls and notifications are handed on;
    /// an undecodable payload is dropped and the connection lives on.
    pub fn handle_payload(&mut self, payload: &[u8]) -> (r: PayloadOutcome)
        requires
            old(self).wf(),
        ensures
            final(self).wf(),
            final(self).language_id == old(self).language_id,
            final(self).last_id == old(self).last_id,
            final(self).reader == old(self).reader,
            match spec_payload_msg(payload@) {
                None => r == PayloadOutcome::Ignored && final(self).pending.entries@ == old(
                    self,
                ).pending.entries@,
                Some(m) => match m {
                    RawMessage::Output(o) => {
                        if contains_id(old(self).pending.entries@, o.spec_id()) {
                            r == PayloadOutcome::Completed(
                                slot_of(old(self).pending.entries@, o.spec_id()),
                                o,
                            ) && final(self).pending.entries@ == old(self).pending.entries@.remove(
                                idx_of(old(self).pending.entries@, o.spec_id()),
                            )
                        } else {
                            r == PayloadOutcome::Unmatched(o) && final(self).pending.entries@
                                == old(self).pending.entries@
                        }
                    },
                    _ => r == PayloadOutcome::Inbound(m) && final(self).pending.entries@ == old(
                        self,
                    ).pending.entries@,
                },
            },
    {
        let t = trim(payload);
        if t.len() == 0 {
            return PayloadOutcome::Ignored;
        }
        let stripped = strip_meta(t.as_slice());
        let fields = match parse_wire_fields(stripped.as_slice()) {
            None => {
                return PayloadOutcome::Ignored;
            },
            Some(f) => f,
        };
        match classify(fields) {
            None => PayloadOutcome::Ignored,
            Some(RawMessage::Output(o)) => {
                let id = o.id();
                let ghost s0 = self.pending.entries@;
                match self.pending.take(id) {
                    Some(slot) => {
                        proof {
                            let k = idx_of(s0, id);
                            assert(0 <= k < s0.len() && s0[k].0 == id);
                            s0.remove_ensures(k);
                            let t2 = self.pending.entries@;
                            assert forall|i: int| 0 <= i < t2.len() implies (#[trigger] t2[i]).0
                                <= self.last_id by {
                                if i < k {
                                    assert(t2[i] == s0[i]);
                                } else {
                                    assert(t2[i] == s0[i + 1]);
                                }
                            }
                        }
                        PayloadOutcome::Completed(slot, o)
                    },
                    None => PayloadOutcome::Unmatched(o),
                }
            },
            Some(m) => PayloadOutcome::Inbound(m),
        }
    }

    /// Tear the connection down: hand back the completion slot of every
    /// still-pending call, so each caller is failed with a cancellation
    /// error rather than left suspended.
    pub fn cancel_pending(&mut self) -> (r: Vec<u64>)
        requires
            old(self).wf(),
        ensures
            final(self).wf(),
            r@ == old(self).pending.entries@.map_values(|p: (u64, u64)| p.1),
            final(self).pending.entries@.len() == 0,
            final(self).last_id == old(self).last_id,
            final(self).language_id == old(self).language_id,
            final(self).reader == old(self).reader,
    {
        self.pending.drain()
    }
}

} // verus!
