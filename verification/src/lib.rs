//! A bidirectional JSON-RPC correlation layer for a line-delimited channel.
//!
//! The library holds the logic: the message model and its wire codec
//! ([`rpc`], [`json`]), the request id generator, the correlation table of
//! pending requests ([`table`]), the per-line dispatch decision, and the
//! classification of a delivered response. The surrounding program owns the
//! transport: it reads lines and hands each to [`Omegga::dispatch_line`],
//! and it emits the lines the library returns.

use vstd::prelude::*;

pub mod json;
pub mod rpc;
pub mod table;

use crate::json::Json;
use crate::json::JsonV;
use crate::json::jtext;
use crate::rpc::Message;
use crate::rpc::MessageV;
use crate::rpc::RequestId;
use crate::rpc::RequestIdV;
use crate::rpc::opt_view;
use crate::rpc::msg_text;
use crate::rpc::msg_of_json;
use crate::json::wf_json;
use crate::rpc::encode;
use crate::rpc::decode;
use crate::table::CorrelationTable;
use crate::table::oneshot_pair;
use tokio::sync::oneshot::Receiver;
use tokio::sync::oneshot::Sender;
use tokio::sync::oneshot::error::RecvError;

verus! {

broadcast use vstd::map::group_map_axioms, vstd::set::group_set_axioms;

/// The process-wide request id counter. Ids advance by one from a starting
/// value of -1, so the issued sequence is -1, 0, 1, 2, …; no id is ever
/// produced twice.
pub struct IdGen {
    counter: i64,
}

impl IdGen {
    pub closed spec fn current(self) -> int {
        self.counter as int
    }

    pub fn new() -> (g: IdGen)
        ensures
            g.current() == -1,
    {
        IdGen { counter: -1 }
    }

    /// The counter value the next call of `next` will hand out.
    pub fn peek(&self) -> (id: i64)
        ensures
            id as int == self.current(),
    {
        self.counter
    }

    /// The next fresh id: the current counter value, which is then advanced.
    pub fn next(&mut self) -> (id: i64)
        requires
            old(self).current() < i64::MAX,
        ensures
            id == old(self).current(),
            final(self).current() == old(self).current() + 1,
    {
        let id = self.counter;
        self.counter = self.counter + 1;
        id
    }
}

/// The RPC context: the correlation table of pending requests and the id
/// generator, owned together so their joint invariant — every pending id was
/// issued by the generator — holds for the process lifetime.
pub struct Omegga {
    pub awaiter_txs: CorrelationTable,
    pub request_id: IdGen,
}

impl Omegga {
    /// The ids with a live pending entry.
    pub open spec fn pending(self) -> Set<i64> {
        self.awaiter_txs@.dom()
    }

    /// The next id the generator will hand out.
    pub closed spec fn next_id(self) -> int {
        self.request_id.current()
    }

    /// Every pending id lies below the generator's counter, so a fresh id is
    /// never already registered, and no id is registered twice.
    pub open spec fn wf(self) -> bool {
        &&& -1 <= self.next_id()
        &&& forall|id: i64|
            self.pending().contains(id) ==> (-1 <= id as int && (id as int) < self.next_id())
    }

    /// A fresh context: nothing pending, ids starting at -1.
    pub fn new() -> (o: Omegga)
        ensures
            o.wf(),
            o.pending() == Set::<i64>::empty(),
            o.next_id() == -1,
    {
        Omegga { awaiter_txs: CorrelationTable::new(), request_id: IdGen::new() }
    }

    /// Encodes an outbound message as the one line to emit.
    pub fn write(&self, message: Message) -> (line: String)
        ensures
            line@ == msg_text(message@),
    {
        encode(message)
    }

    /// Encodes an outbound notification as the one line to emit.
    pub fn write_notification(&self, method: String, params: Option<Json>) -> (line: String)
        ensures
            line@ == msg_text(MessageV::Notification { method: method@, params: opt_view(params) }),
    {
        self.write(Message::notification(method, params))
    }

    /// Encodes an outbound response as the one line to emit.
    pub fn write_response(
        &self,
        id: RequestId,
        params: Option<Json>,
        error: Option<crate::rpc::Error>,
    ) -> (line: String)
        ensures
            line@ == msg_text(
                MessageV::Response {
                    id: id@,
                    result: opt_view(params),
                    error: match error {
                        Some(e) => Some(e@),
                        None => None,
                    },
                },
            ),
    {
        self.write(Message::response(id, params, error))
    }

    /// Encodes an outbound request as the one line to emit. No pending entry
    /// is filed: a caller that expects an answer uses [`Omegga::request`].
    pub fn write_request(&self, id: RequestId, method: String, params: Option<Json>) -> (line:
        String)
        ensures
            line@ == msg_text(
                MessageV::Request { id: id@, method: method@, params: opt_view(params) },
            ),
    {
        self.write(Message::request(id, method, params))
    }

    /// Issues a request: draws a fresh id, files the pending entry, and hands
    /// back the line to emit together with the awaiter that will resolve when
    /// the matching response arrives. The entry is filed before the line is
    /// given out, so the request cannot be answered before it is expected.
    pub fn request(&mut self, method: String, params: Option<Json>) -> (r: (String, ResponseAwaiter))
        requires
            old(self).wf(),
            old(self).next_id() < i64::MAX,
        ensures
            final(self).wf(),
            final(self).next_id() == old(self).next_id() + 1,
            old(self).next_id() == old(self).next_id() as i64 as int,
            final(self).pending() == old(self).pending().insert(old(self).next_id() as i64),
            !old(self).pending().contains(old(self).next_id() as i64),
            exists|tx: Sender<crate::rpc::Response>|
                final(self).awaiter_txs@ == #[trigger] old(self).awaiter_txs@.insert(
                    old(self).next_id() as i64,
                    tx,
                ),
            r.1.spec_id() as int == old(self).next_id(),
            r.0@ == msg_text(
                MessageV::Request {
                    id: RequestIdV::Int(old(self).next_id()),
                    method: method@,
                    params: opt_view(params),
                },
            ),
    {
        let id: i64 = self.request_id.next();
        let (tx, rx) = oneshot_pair();
        proof {
            if self.pending().contains(id) {
                assert(old(self).pending().contains(id));
                assert(false);
            }
        }
        self.awaiter_txs.register(id, tx);
        proof {
            assert forall|k: i64| self.pending().contains(k) implies (-1 <= k as int && (
            k as int) < self.next_id()) by {
                assert(self.awaiter_txs@.dom() =~= old(self).awaiter_txs@.dom().insert(id));
                if k != id {
                    assert(old(self).pending().contains(k));
                }
            }
            assert(self.pending() =~= old(self).pending().insert(id));
        }
        let line = self.write_request(RequestId::Int(id), method, params);
        (line, ResponseAwaiter { rx, id })
    }

    /// Takes the pending entry for `id` out without resolving it; reports
    /// whether one was there. A caller that abandons an awaiter — on a
    /// timeout it imposed itself, or at shutdown — cancels the entry so the
    /// table cannot grow without bound.
    pub fn cancel(&mut self, id: i64) -> (found: bool)
        requires
            old(self).wf(),
        ensures
            final(self).wf(),
            final(self).next_id() == old(self).next_id(),
            final(self).awaiter_txs@ == old(self).awaiter_txs@.remove(id),
            found <==> old(self).pending().contains(id),
    {
        let found = self.awaiter_txs.cancel(id);
        proof {
            assert forall|k: i64| self.pending().contains(k) implies (-1 <= k as int && (
            k as int) < self.next_id()) by {
                assert(self.awaiter_txs@.dom() =~= old(self).awaiter_txs@.dom().remove(id));
                assert(old(self).pending().contains(k));
            }
        }
        found
    }

    /// Routes one decoded inbound message. A response resolves the matching
    /// pending entry, if any, and is never forwarded; a response with an
    /// unknown or non-integer id falls away silently. Every other message is
    /// handed back unchanged, for the surrounding application to consume in
    /// arrival order.
    pub fn dispatch_message(&mut self, m: Message) -> (ev: Option<Message>)
        requires
            old(self).wf(),
        ensures
            final(self).wf(),
            final(self).next_id() == old(self).next_id(),
            match m {
                Message::Response { id, result, error } => {
                    &&& ev is None
                    &&& match id {
                        RequestId::Int(n) => final(self).awaiter_txs@ == old(
                            self,
                        ).awaiter_txs@.remove(n),
                        RequestId::Str(_) => final(self).awaiter_txs@ == old(self).awaiter_txs@,
                    }
                },
                _ => ev == Some(m) && final(self).awaiter_txs@ == old(self).awaiter_txs@,
            },
    {
        match m {
            Message::Response { id, result, error } => {
                match id {
                    RequestId::Int(n) => {
                        let resp = crate::rpc::Response { id: RequestId::Int(n), result, error };
                        let _ = self.awaiter_txs.resolve(n, resp);
                        proof {
                            assert forall|k: i64| self.pending().contains(k) implies (-1
                                <= k as int && (k as int) < self.next_id()) by {
                                assert(self.awaiter_txs@.dom() =~= old(
                                    self,
                                ).awaiter_txs@.dom().remove(n));
                                assert(old(self).pending().contains(k));
                            }
                        }
                    },
                    RequestId::Str(_) => {},
                }
                None
            },
            other => Some(other),
        }
    }

    /// What one inbound line does, as a function of what the line spells:
    /// for the canonical text of a well-formed JSON value that classifies as
    /// a message, a response resolves exactly the entry of its integer id
    /// and nothing is forwarded, while every other message is forwarded
    /// unchanged; a line that is no such text — malformed, or differing from
    /// the canonical grammar even in whitespace — has no effect at all.
    pub open spec fn line_outcome(
        pre: Omegga,
        post: Omegga,
        line: Seq<char>,
        ev: Option<Message>,
        jv: JsonV,
    ) -> bool {
        match msg_of_json(jv) {
            Some(mv) => match mv {
                MessageV::Response { id: RequestIdV::Int(nid), .. } => {
                    &&& ev is None
                    &&& post.awaiter_txs@ == pre.awaiter_txs@.remove(nid as i64)
                },
                MessageV::Response { id: RequestIdV::Str(_), .. } => {
                    &&& ev is None
                    &&& post.awaiter_txs@ == pre.awaiter_txs@
                },
                _ => {
                    &&& ev is Some
                    &&& ev->0@ == mv
                    &&& post.awaiter_txs@ == pre.awaiter_txs@
                },
            },
            None => {
                &&& ev is None
                &&& post.awaiter_txs@ == pre.awaiter_txs@
            },
        }
    }

    /// The line is the canonical text of a message that is a response with
    /// integer id `n`.
    pub open spec fn response_line(line: Seq<char>, n: i64) -> bool {
        exists|jv: JsonV|
            {
                &&& wf_json(jv)
                &&& line == #[trigger] jtext(jv)
                &&& match msg_of_json(jv) {
                    Some(MessageV::Response { id: RequestIdV::Int(m), .. }) => m == n as int,
                    _ => false,
                }
            }
    }

    /// Routes one raw inbound line: decodes it and dispatches the message.
    /// A line that does not decode has no effect at all; no call ever adds a
    /// pending entry; an entry is removed only when the line is a response
    /// line for its id; and on every line that spells a message, the outcome
    /// is exactly what `line_outcome` says for it.
    pub fn dispatch_line(&mut self, line: &str) -> (ev: Option<Message>)
        requires
            old(self).wf(),
        ensures
            final(self).wf(),
            final(self).next_id() == old(self).next_id(),
            final(self).awaiter_txs@ == old(self).awaiter_txs@ || exists|n: i64|
                #[trigger] Omegga::response_line(line@, n) && old(self).pending().contains(n)
                    && final(self).awaiter_txs@ == old(self).awaiter_txs@.remove(n),
            forall|jv: JsonV|
                wf_json(jv) && line@ == jtext(jv) ==> Omegga::line_outcome(
                    *old(self),
                    *final(self),
                    line@,
                    ev,
                    jv,
                ),
            match ev {
                Some(m) => {
                    &&& final(self).awaiter_txs@ == old(self).awaiter_txs@
                    &&& !(m is Response)
                    &&& exists|jv: JsonV|
                        wf_json(jv) && line@ == jtext(jv) && msg_of_json(jv) == Some(m@)
                },
                None => true,
            },
    {
        let d = decode(line);
        match d {
            Some(m) => {
                let ghost gm: Message = m;
                let ghost before: Map<i64, tokio::sync::oneshot::Sender<crate::rpc::Response>> =
                    self.awaiter_txs@;
                let ev = self.dispatch_message(m);
                proof {
                    if self.awaiter_txs@ != before {
                        assert(gm is Response);
                        let n = match gm {
                            Message::Response { id: RequestId::Int(n), .. } => n,
                            _ => 0,
                        };
                        assert(self.awaiter_txs@ == before.remove(n));
                        if !before.dom().contains(n) {
                            assert(before.remove(n) =~= before);
                            assert(false);
                        }
                        assert(old(self).pending().contains(n) && self.awaiter_txs@ == old(
                            self,
                        ).awaiter_txs@.remove(n));
                        let witness = choose|jv: JsonV|
                            wf_json(jv) && line@ == jtext(jv) && msg_of_json(jv) == Some(gm@);
                        assert(wf_json(witness) && line@ == jtext(witness) && msg_of_json(witness)
                            == Some(gm@));
                        assert(Omegga::response_line(line@, n));
                    }
                    assert forall|jv: JsonV|
                        wf_json(jv) && line@ == jtext(jv) implies Omegga::line_outcome(
                        *old(self),
                        *self,
                        line@,
                        ev,
                        jv,
                    ) by {
                        assert(msg_of_json(jv) == Some(gm@));
                        match gm {
                            Message::Response { id: RequestId::Int(k), .. } => {
                                assert(gm@ matches MessageV::Response {
                                    id: RequestIdV::Int(nid),
                                    ..
                                } && nid == k as int);
                            },
                            _ => {},
                        }
                    }
                }
                ev
            },
            None => {
                proof {
                    assert forall|jv: JsonV|
                        wf_json(jv) && line@ == jtext(jv) implies Omegga::line_outcome(
                        *old(self),
                        *self,
                        line@,
                        None::<Message>,
                        jv,
                    ) by {
                        assert(msg_of_json(jv) is None);
                    }
                }
                None
            },
        }
    }
}

impl Default for Omegga {
    /// The same fresh context `new` gives.
    fn default() -> (o: Omegga)
        ensures
            o.wf(),
            o.pending() == Set::<i64>::empty(),
            o.next_id() == -1,
    {
        Omegga::new()
    }
}

/// Two requests issued back to back draw distinct ids: each draw hands out
/// the counter's value and leaves the counter one higher, so the second id
/// sits one above the first.
pub proof fn lemma_successive_ids_distinct(g0: IdGen, g1: IdGen, id1: i64, id2: i64)
    requires
        id1 as int == g0.current(),
        g1.current() == g0.current() + 1,
        id2 as int == g1.current(),
    ensures
        id1 != id2,
        id2 as int == id1 as int + 1,
{
}

/// A response for an id with no pending entry has no effect on the table:
/// removing an absent key changes nothing, so the dispatcher's contract
/// leaves the state exactly as it was.
pub proof fn lemma_unmatched_response_no_effect(o: Omegga, n: i64)
    requires
        !o.pending().contains(n),
    ensures
        o.awaiter_txs@.remove(n) == o.awaiter_txs@,
{
    assert(o.awaiter_txs@.remove(n) =~= o.awaiter_txs@);
}

/// A one-shot handle that resolves exactly once, to the classified outcome
/// of the request it was issued for. It carries no timeout: a caller that
/// needs a deadline races it against a timer of its own and, on timeout,
/// cancels the table entry through [`Omegga::cancel`] under the id this
/// handle carries. Receiving is the surrounding program's work (it may block
/// a thread or await a task); the classification of whatever arrives is
/// [`Response::of_rpc`].
pub struct ResponseAwaiter {
    rx: Receiver<crate::rpc::Response>,
    id: i64,
}

impl ResponseAwaiter {
    /// The id of the request this handle belongs to.
    pub closed spec fn spec_id(self) -> i64 {
        self.id
    }

    /// The id of the request this handle belongs to; the key to hand to
    /// [`Omegga::cancel`] when the handle is abandoned.
    pub fn id(&self) -> (id: i64)
        ensures
            id == self.spec_id(),
    {
        self.id
    }

    /// Hands out the underlying receiving half.
    pub fn into_receiver(self) -> Receiver<crate::rpc::Response> {
        let ResponseAwaiter { rx, id: _ } = self;
        rx
    }
}

/// The classified outcome of an awaited request.
#[derive(Debug)]
pub enum Response {
    /// The peer answered without an error; the payload is the answer's
    /// `result`, which may be absent.
    Success(Option<Json>),
    /// The peer answered with an RPC-level error.
    RpcError(crate::rpc::Error),
    /// The channel closed without a response: the entry was cancelled or the
    /// process is shutting down. The request's fate is unknown.
    RecvError(RecvError),
}

impl Response {
    /// The outcome a delivered wire response classifies as: an error if the
    /// response carries one, else its result. A response holding both a
    /// result and an error counts as the error; the result is dropped.
    pub open spec fn classify(r: crate::rpc::Response) -> Response {
        match r.error {
            Some(e) => Response::RpcError(e),
            None => Response::Success(r.result),
        }
    }

    /// Classifies a delivered wire response, exactly as `classify` says.
    pub fn of_rpc(r: crate::rpc::Response) -> (out: Response)
        ensures
            out == Response::classify(r),
    {
        let crate::rpc::Response { id: _, result, error } = r;
        match error {
            Some(e) => Response::RpcError(e),
            None => Response::Success(result),
        }
    }
}

} // verus!
