//! The dispatcher: sole owner of the backend-identity to connection map and
//! of the shared editor-visible state. Inbound traffic becomes application
//! behavior here; every mutation happens through one exclusive owner.

use vstd::prelude::*;
use crate::client::RpcClient;
use crate::client::call_message;
use crate::client::notify_message;
use crate::client::output_message;
use crate::message::MethodCall;
use crate::message::Notification;
use crate::message::Output;
use crate::message::wire_of;
use crate::json::str_field_of;
use crate::json::get_str_field;

verus! {

/// The failures this layer reports.
#[derive(Clone, Debug, PartialEq, Eq)]
pub enum LCError {
    /// A call or reply targets an identity with no registered connection.
    UnknownBackend,
    /// The peer answered a call with an error object (its JSON text).
    RemoteError(Vec<u8>),
    /// The editor reported a nonzero status for an `execute` call.
    CommandFailed,
    /// The editor reported a nonzero status for a `setline` call.
    SetLineFailed,
    /// The editor reported a nonzero status for an edit request.
    EditFailed,
    /// The editor reported a nonzero status for a quickfix-list call.
    QuickfixFailed,
    /// The editor reported a nonzero status for a location-list call.
    LocationListFailed,
    /// A reply could not be read as the expected status number.
    InvalidResponse,
}

/// Turn a correlated reply into what the caller sees: the result payload on
/// success, or the peer's error payload as a typed failure. A remote error
/// never tears anything down.
pub fn call_result(o: Output) -> (r: Result<Vec<u8>, LCError>)
    ensures
        match o {
            Output::Success { id, result } => r == Ok::<Vec<u8>, LCError>(result),
            Output::Failure { id, error } => r == Err::<Vec<u8>, LCError>(
                LCError::RemoteError(error),
            ),
        },
{
    match o {
        Output::Success { id: _, result } => Ok(result),
        Output::Failure { id: _, error } => Err(LCError::RemoteError(error)),
    }
}

/// Do two identity tags name the same connection? `None` is the editor.
pub open spec fn same_identity(a: Option<String>, b: Option<String>) -> bool {
    match (a, b) {
        (None, None) => true,
        (Some(x), Some(y)) => x@ == y@,
        _ => false,
    }
}

fn identity_eq(a: &Option<String>, b: &Option<String>) -> (r: bool)
    ensures
        r == same_identity(*a, *b),
{
    match (a, b) {
        (None, None) => true,
        (Some(x), Some(y)) => x.eq(y),
        _ => false,
    }
}

/// Is a connection registered under `ident`?
pub open spec fn registered(s: Seq<(Option<String>, RpcClient)>, ident: Option<String>) -> bool {
    exists|i: int| 0 <= i < s.len() && same_identity((#[trigger] s[i]).0, ident)
}

/// Index of the connection registered under `ident`.
pub open spec fn index_of_identity(
    s: Seq<(Option<String>, RpcClient)>,
    ident: Option<String>,
) -> int {
    choose|i: int| 0 <= i < s.len() && same_identity((#[trigger] s[i]).0, ident)
}

/// Shared state owned by the dispatcher: the connection map and the
/// editor-visible bookkeeping.
pub struct State {
    /// Connection handle per backend identity; `None` keys the editor.
    pub addrs: Vec<(Option<String>, RpcClient)>,
    /// Documents registered by `textDocument/didOpen`, with their identity.
    pub docs: Vec<(Option<String>, Vec<u8>)>,
}

/// An inbound message routed off a connection, tagged with the identity of
/// the connection it arrived on.
pub enum Call {
    MethodCall(Option<String>, MethodCall),
    Notification(Option<String>, Notification),
}

/// The document a notification registers, if it is a well-formed
/// `textDocument/didOpen`.
pub open spec fn spec_did_open_doc(n: Notification) -> Option<Seq<u8>> {
    if n.method@ == "textDocument/didOpen"@ {
        match n.params {
            Some(p) => str_field_of(p@, "uri"@),
            None => None,
        }
    } else {
        None
    }
}

/// Can every connection still allocate a fresh request id?
pub open spec fn ids_available(w: LanguageClientWorker) -> bool {
    forall|i: int|
        0 <= i < w.0.addrs@.len() ==> (#[trigger] w.0.addrs@[i]).1.last_id < u64::MAX
}

/// How one outbound call changes the dispatcher: exactly one connection
/// advances its id counter and gains one pending entry; every other
/// connection and all other state are untouched.
pub open spec fn call_transition(
    pre: LanguageClientWorker,
    post: LanguageClientWorker,
    ident: Option<String>,
    i: int,
    id: u64,
    slot: u64,
) -> bool {
    let s = pre.0.addrs@;
    let t = post.0.addrs@;
    &&& registered(s, ident)
    &&& 0 <= i < s.len()
    &&& same_identity(s[i].0, ident)
    &&& id == s[i].1.last_id + 1
    &&& t.len() == s.len()
    &&& t[i].0 == s[i].0
    &&& t[i].1.last_id == id
    &&& t[i].1.pending.entries@ == s[i].1.pending.entries@.push((id, slot))
    &&& t[i].1.reader == s[i].1.reader
    &&& t[i].1.language_id == s[i].1.language_id
    &&& (forall|j: int| 0 <= j < s.len() && j != i ==> #[trigger] t[j] == s[j])
    &&& post.0.docs@ == pre.0.docs@
}

/// The dispatcher. An embedding runtime serializes access to it behind one
/// exclusive lock, held for a whole logical operation but never across a
/// blocking outbound call.
pub struct LanguageClientWorker(pub State);

impl LanguageClientWorker {
    pub open spec fn wf(self) -> bool {
        &&& (forall|i: int, j: int|
            0 <= i < j < self.0.addrs@.len() ==> !same_identity(
                (#[trigger] self.0.addrs@[i]).0,
                (#[trigger] self.0.addrs@[j]).0,
            ))
        &&& (forall|i: int| 0 <= i < self.0.addrs@.len() ==> (#[trigger] self.0.addrs@[i]).1.wf())
    }

    pub fn new() -> (r: LanguageClientWorker)
        ensures
            r.0.addrs@ == Seq::<(Option<String>, RpcClient)>::empty(),
            r.0.docs@ == Seq::<(Option<String>, Vec<u8>)>::empty(),
            r.wf(),
    {
        LanguageClientWorker(State { addrs: Vec::new(), docs: Vec::new() })
    }

    /// Borrow the shared state.
    pub fn lock(&self) -> (r: &State)
        ensures
            *r == self.0,
    {
        &self.0
    }

    /// Read under the lock: run `f` on the shared state.
    pub fn get<T, F: FnOnce(&State) -> T>(&self, f: F) -> (r: T)
        requires
            call_requires(f, (&self.0,)),
        ensures
            call_ensures(f, (&self.0,), r),
    {
        f(&self.0)
    }

    /// Mutate under the lock: `f` takes the whole state and hands back its
    /// successor, so two mutations can never interleave partial changes.
    pub fn update<T, F: FnOnce(State) -> (State, T)>(&mut self, f: F) -> (r: T)
        requires
            call_requires(f, (old(self).0,)),
        ensures
            call_ensures(f, (old(self).0,), (final(self).0, r)),
    {
        let mut state = State { addrs: Vec::new(), docs: Vec::new() };
        core::mem::swap(&mut state, &mut self.0);
        let (next, out) = f(state);
        self.0 = next;
        out
    }

    /// Find the connection registered under `identity`.
    pub fn lookup(&self, identity: &Option<String>) -> (r: Result<usize, LCError>)
        ensures
            match r {
                Ok(i) => registered(self.0.addrs@, *identity) && 0 <= i < self.0.addrs@.len()
                    && same_identity(self.0.addrs@[i as int].0, *identity),
                Err(e) => e == LCError::UnknownBackend && !registered(self.0.addrs@, *identity),
            },
    {
        let mut i: usize = 0;
        while i < self.0.addrs.len()
            invariant
                0 <= i <= self.0.addrs@.len(),
                forall|j: int|
                    0 <= j < i ==> !same_identity((#[trigger] self.0.addrs@[j]).0, *identity),
            decreases self.0.addrs@.len() - i,
        {
            if identity_eq(&self.0.addrs[i].0, identity) {
                return Ok(i);
            }
            i = i + 1;
        }
        Err(LCError::UnknownBackend)
    }

    /// Attach a connection as a backend starts (or re-starts): a fresh
    /// identity is appended, a known one has its connection replaced.
    pub fn register_connection(&mut self, identity: Option<String>, client: RpcClient)
        requires
            old(self).wf(),
            client.wf(),
        ensures
            final(self).wf(),
            final(self).0.docs@ == old(self).0.docs@,
            registered(final(self).0.addrs@, identity),
            !registered(old(self).0.addrs@, identity) ==> final(self).0.addrs@ == old(self).0.addrs@.push((identity, client)),
            registered(old(self).0.addrs@, identity) ==> final(self).0.addrs@ == old(self).0.addrs@.update(
                index_of_identity(old(self).0.addrs@, identity),
                (identity, client),
            ),
    {
        let ghost s = old(self).0.addrs@;
        match self.lookup(&identity) {
            Err(_) => {
                self.0.addrs.push((identity, client));
                proof {
                    let t = self.0.addrs@;
                    assert forall|i: int, j: int| 0 <= i < j < t.len() implies !same_identity(
                        (#[trigger] t[i]).0,
                        (#[trigger] t[j]).0,
                    ) by {
                        if j < s.len() {
                            assert(t[i] == s[i] && t[j] == s[j]);
                        } else {
                            assert(t[i] == s[i]);
                        }
                    }
                    assert(forall|i: int|
                        0 <= i < s.len() ==> #[trigger] t[i] == s[i]);
                    assert(t[s.len() as int].0 == identity);
                    assert(same_identity(t[s.len() as int].0, identity));
                    assert(registered(t, identity));
                }
            },
            Ok(i) => {
                proof {
                    let k = index_of_identity(s, identity);
                    assert(0 <= k < s.len() && same_identity(s[k].0, identity));
                    assert(k == i as int);
                }
                let _prior = self.0.addrs.remove(i);
                self.0.addrs.insert(i, (identity, client));
                proof {
                    let rm = s.remove(i as int);
                    s.remove_ensures(i as int);
                    let t = self.0.addrs@;
                    let v = t[i as int];
                    assert(t == rm.insert(i as int, v));
                    rm.insert_ensures(i as int, v);
                    assert forall|j: int| 0 <= j < t.len() && j != i as int implies #[trigger] t[j]
                        == s[j] by {
                        if j < i as int {
                            assert(t[j] == rm[j]);
                        } else {
                            assert(t[j] == rm[j - 1]);
                            assert(rm[j - 1] == s[j]);
                        }
                    }
                    assert(t =~= s.update(i as int, v));
                    assert forall|a: int, b: int| 0 <= a < b < t.len() implies !same_identity(
                        (#[trigger] t[a]).0,
                        (#[trigger] t[b]).0,
                    ) by {
                        if a != i as int && b != i as int {
                            assert(t[a] == s[a] && t[b] == s[b]);
                        } else if a == i as int {
                            assert(t[b] == s[b]);
                            assert(!same_identity(s[b].0, s[i as int].0));
                        } else {
                            assert(t[a] == s[a]);
                            assert(!same_identity(s[a].0, s[i as int].0));
                        }
                    }
                    assert(same_identity(t[i as int].0, identity));
                    assert(registered(t, identity));
                }
            },
        }
    }

    /// Route a blocking call out: allocate an id on the target backend's
    /// connection, register the completion slot, and hand back the framed
    /// bytes to write. Every other connection is left untouched.
    pub fn call(
        &mut self,
        identity: &Option<String>,
        method: String,
        params: Option<Vec<u8>>,
        slot: u64,
    ) -> (r: Result<(usize, u64, Vec<u8>), LCError>)
        requires
            old(self).wf(),
            ids_available(*old(self)),
        ensures
            final(self).wf(),
            final(self).0.docs@ == old(self).0.docs@,
            match r {
                Ok((i, id, bytes)) => call_transition(
                    *old(self),
                    *final(self),
                    *identity,
                    i as int,
                    id,
                    slot,
                ) && bytes@ == wire_of(call_message(id, method, params)),
                Err(e) => e == LCError::UnknownBackend && !registered(old(self).0.addrs@, *identity)
                    && final(self).0.addrs@ == old(self).0.addrs@,
            },
    {
        let ghost s = old(self).0.addrs@;
        let i = match self.lookup(identity) {
            Err(e) => {
                return Err(e);
            },
            Ok(i) => i,
        };
        let (ident_i, mut client) = self.0.addrs.remove(i);
        let (id, bytes) = client.call(method, params, slot);
        self.0.addrs.insert(i, (ident_i, client));
        proof {
            let rm = s.remove(i as int);
            s.remove_ensures(i as int);
            let t = self.0.addrs@;
            let v = t[i as int];
            assert(t == rm.insert(i as int, v));
            rm.insert_ensures(i as int, v);
            assert forall|j: int| 0 <= j < t.len() && j != i as int implies #[trigger] t[j]
                == s[j] by {
                if j < i as int {
                    assert(t[j] == rm[j]);
                } else {
                    assert(t[j] == rm[j - 1]);
                    assert(rm[j - 1] == s[j]);
                }
            }
            assert forall|a: int, b: int| 0 <= a < b < t.len() implies !same_identity(
                (#[trigger] t[a]).0,
                (#[trigger] t[b]).0,
            ) by {
                if a != i as int && b != i as int {
                    assert(t[a] == s[a] && t[b] == s[b]);
                } else if a == i as int {
                    assert(t[b] == s[b]);
                    assert(t[a].0 == s[a].0);
                } else {
                    assert(t[a] == s[a]);
                    assert(t[b].0 == s[b].0);
                }
            }
            assert forall|j: int| 0 <= j < t.len() implies (#[trigger] t[j]).1.wf() by {
                if j != i as int {
                    assert(t[j] == s[j]);
                }
            }
        }
        Ok((i, id, bytes))
    }

    /// Send a notification to a backend: the framed bytes to write. Nothing
    /// is registered and no reply will come.
    pub fn notify(&self, identity: &Option<String>, method: String, params: Option<Vec<u8>>) -> (r:
        Result<(usize, Vec<u8>), LCError>)
        ensures
            match r {
                Ok((i, bytes)) => registered(self.0.addrs@, *identity) && 0 <= i
                    < self.0.addrs@.len() && same_identity(self.0.addrs@[i as int].0, *identity)
                    && bytes@ == wire_of(notify_message(method, params)),
                Err(e) => e == LCError::UnknownBackend && !registered(self.0.addrs@, *identity),
            },
    {
        let i = match self.lookup(identity) {
            Err(e) => {
                return Err(e);
            },
            Ok(i) => i,
        };
        let bytes = self.0.addrs[i].1.notify(method, params);
        Ok((i, bytes))
    }

    /// Answer a call a peer issued to us: the framed `Output` bytes for the
    /// outcome, on the connection the call arrived on.
    pub fn output(&self, identity: &Option<String>, id: u64, result: Result<Vec<u8>, Vec<u8>>) -> (
        r: Result<(usize, Vec<u8>), LCError>)
        ensures
            match r {
                Ok((i, bytes)) => registered(self.0.addrs@, *identity) && 0 <= i
                    < self.0.addrs@.len() && same_identity(self.0.addrs@[i as int].0, *identity)
                    && bytes@ == wire_of(output_message(id, result)),
                Err(e) => e == LCError::UnknownBackend && !registered(self.0.addrs@, *identity),
            },
    {
        let i = match self.lookup(identity) {
            Err(e) => {
                return Err(e);
            },
            Ok(i) => i,
        };
        let bytes = self.0.addrs[i].1.output(id, result);
        Ok((i, bytes))
    }


    /// Tear down one connection after its stream closed or its framing
    /// failed fatally: every pending call on it is handed back for
    /// cancellation, and no other connection's state is touched, so a fatal
    /// error on one backend never affects calls outstanding on another.
    pub fn teardown(&mut self, identity: &Option<String>) -> (r: Result<Vec<u64>, LCError>)
        requires
            old(self).wf(),
        ensures
            final(self).wf(),
            final(self).0.docs@ == old(self).0.docs@,
            match r {
                Ok(slots) => {
                    let s = old(self).0.addrs@;
                    let t = final(self).0.addrs@;
                    exists|i: int|
                        {
                            &&& 0 <= i < s.len()
                            &&& same_identity((#[trigger] s[i]).0, *identity)
                            &&& slots@ == s[i].1.pending.entries@.map_values(|p: (u64, u64)| p.1)
                            &&& t.len() == s.len()
                            &&& t[i].0 == s[i].0
                            &&& t[i].1.pending.entries@.len() == 0
                            &&& (forall|j: int| 0 <= j < s.len() && j != i ==> t[j] == s[j])
                        }
                },
                Err(e) => e == LCError::UnknownBackend && !registered(old(self).0.addrs@, *identity)
                    && final(self).0.addrs@ == old(self).0.addrs@,
            },
    {
        let ghost s = old(self).0.addrs@;
        let i = match self.lookup(identity) {
            Err(e) => {
                return Err(e);
            },
            Ok(i) => i,
        };
        let (ident_i, mut client) = self.0.addrs.remove(i);
        let slots = client.cancel_pending();
        self.0.addrs.insert(i, (ident_i, client));
        proof {
            let rm = s.remove(i as int);
            s.remove_ensures(i as int);
            let t = self.0.addrs@;
            let v = t[i as int];
            assert(t == rm.insert(i as int, v));
            rm.insert_ensures(i as int, v);
            assert forall|j: int| 0 <= j < t.len() && j != i as int implies #[trigger] t[j]
                == s[j] by {
                if j < i as int {
                    assert(t[j] == rm[j]);
                } else {
                    assert(t[j] == rm[j - 1]);
                    assert(rm[j - 1] == s[j]);
                }
            }
            assert forall|a: int, b: int| 0 <= a < b < t.len() implies !same_identity(
                (#[trigger] t[a]).0,
                (#[trigger] t[b]).0,
            ) by {
                if a != i as int && b != i as int {
                    assert(t[a] == s[a] && t[b] == s[b]);
                } else if a == i as int {
                    assert(t[b] == s[b]);
                    assert(t[a].0 == s[a].0);
                } else {
                    assert(t[a] == s[a]);
                    assert(t[b].0 == s[b].0);
                }
            }
            assert forall|j: int| 0 <= j < t.len() implies (#[trigger] t[j]).1.wf() by {
                if j != i as int {
                    assert(t[j] == s[j]);
                }
            }
            assert(0 <= i as int && (i as int) < s.len());
            assert(same_identity(s[i as int].0, *identity));
        }
        Ok(slots)
    }

    /// Handle one routed inbound message, given the handler's outcome for
    /// it. A method call is answered with an `Output` frame carrying its own
    /// id on its own connection; a notification is answered with nothing,
    /// and a well-formed `textDocument/didOpen` registers its document under
    /// the originating identity. Handler failures never crash the
    /// dispatcher: for calls they become an error reply, for notifications
    /// they are only logged by the embedding.
    pub fn handle(&mut self, msg: Call, outcome: Result<Vec<u8>, Vec<u8>>) -> (r: Result<
        Option<(usize, Vec<u8>)>,
        LCError,
    >)
        requires
            old(self).wf(),
        ensures
            final(self).wf(),
            final(self).0.addrs@ == old(self).0.addrs@,
            match msg {
                Call::MethodCall(ident, mc) => final(self).0.docs@ == old(self).0.docs@ && (
                match r {
                    Ok(reply) => match reply {
                        Some((i, bytes)) => registered(old(self).0.addrs@, ident) && 0 <= i < old(self).0.addrs@.len() && same_identity(old(self).0.addrs@[i as int].0, ident)
                            && bytes@ == wire_of(output_message(mc.id, outcome)),
                        None => false,
                    },
                    Err(e) => e == LCError::UnknownBackend && !registered(
                        old(self).0.addrs@,
                        ident,
                    ),
                }),
                Call::Notification(ident, n) => r == Ok::<Option<(usize, Vec<u8>)>, LCError>(None)
                    && (match spec_did_open_doc(n) {
                    Some(u) => final(self).0.docs@.len() == old(self).0.docs@.len() + 1 && final(self).0.docs@.take(old(self).0.docs@.len() as int) == old(self).0.docs@ && final(self).0.docs@.last().0 == ident && final(self).0.docs@.last().1@ == u,
                    None => final(self).0.docs@ == old(self).0.docs@,
                }),
            },
    {
        match msg {
            Call::MethodCall(ident, mc) => {
                match self.output(&ident, mc.id, outcome) {
                    Ok((i, bytes)) => Ok(Some((i, bytes))),
                    Err(e) => Err(e),
                }
            },
            Call::Notification(ident, n) => {
                let key = "textDocument/didOpen".to_owned();
                if n.method == key {
                    match &n.params {
                        Some(p) => {
                            match get_str_field(p.as_slice(), "uri") {
                                Some(u) => {
                                    let ghost d0 = self.0.docs@;
                                    self.0.docs.push((ident, u));
                                    proof {
                                        assert(self.0.docs@.take(d0.len() as int) =~= d0);
                                    }
                                },
                                None => {},
                            }
                        },
                        None => {},
                    }
                } else {
                    proof {
                        assert(spec_did_open_doc(n) is None);
                    }
                }
                Ok(None)
            },
        }
    }
}

} // verus!
