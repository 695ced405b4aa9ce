//! The correlation table: a concurrent map from the id of an in-flight
//! request to the sending half of the single-use channel its awaiter holds.
//!
//! The map itself is `dashmap`'s sharded hash map, taken on trust through the
//! wrappers below; the delivery channel is tokio's oneshot channel. Only
//! integer ids are ever registered, because every outbound request id comes
//! from the library's own generator.

use vstd::prelude::*;
use std::collections::hash_map::RandomState;
use dashmap::DashMap;
use tokio::sync::oneshot::Sender;
use tokio::sync::oneshot::Receiver;
use tokio::sync::oneshot::error::RecvError;
use crate::rpc::Response;
use crate::rpc::RequestIdV;

verus! {

#[verifier::external_type_specification]
#[verifier::external_body]
#[verifier::reject_recursive_types(K)]
#[verifier::reject_recursive_types(V)]
#[verifier::reject_recursive_types(S)]
pub struct ExDashMap<K, V, S>(DashMap<K, V, S>);

#[verifier::external_type_specification]
#[verifier::external_body]
#[verifier::reject_recursive_types(T)]
pub struct ExSender<T>(Sender<T>);

#[verifier::external_type_specification]
#[verifier::external_body]
#[verifier::reject_recursive_types(T)]
pub struct ExReceiver<T>(Receiver<T>);

#[verifier::external_type_specification]
#[verifier::external_body]
pub struct ExRecvError(RecvError);

/// The concurrent map the table is built on.
pub type TableMap = DashMap<i64, Sender<Response>, RandomState>;

/// The entries a correlation map holds.
pub uninterp spec fn table_entries(m: TableMap) -> Map<i64, Sender<Response>>;

/// No entries at all.
pub open spec fn no_entries() -> Map<i64, Sender<Response>> {
    Map::empty()
}

/// Relies on `dashmap::DashMap::new`: a fresh map holds nothing.
#[verifier::external_body]
fn table_new_map() -> (m: TableMap)
    ensures
        table_entries(m) == no_entries(),
{
    DashMap::new()
}

/// Relies on `dashmap::DashMap::insert`: the map maps the key to the value
/// afterwards; nothing else changes.
#[verifier::external_body]
fn table_insert(m: &mut TableMap, id: i64, tx: Sender<Response>)
    ensures
        table_entries(*final(m)) == table_entries(*old(m)).insert(id, tx),
{
    m.insert(id, tx);
}

/// Relies on `dashmap::DashMap::remove`: atomically takes the entry for the
/// key out of the map and hands it back, if one was there.
#[verifier::external_body]
fn table_take(m: &mut TableMap, id: i64) -> (r: Option<Sender<Response>>)
    ensures
        table_entries(*final(m)) == table_entries(*old(m)).remove(id),
        r is Some <==> table_entries(*old(m)).dom().contains(id),
        r is Some ==> r->0 == table_entries(*old(m))[id],
{
    match m.remove(&id) {
        Some((_, tx)) => Some(tx),
        None => None,
    }
}

/// Relies on `tokio::sync::oneshot::channel`: a connected sender/receiver
/// pair carrying at most one value.
#[verifier::external_body]
pub fn oneshot_pair() -> (r: (Sender<Response>, Receiver<Response>))
{
    tokio::sync::oneshot::channel()
}

/// Relies on `tokio::sync::oneshot::Sender::send`: consumes the sender,
/// delivering the value if the receiving half is still alive. Whether the
/// value arrives depends on the receiver's fate, so nothing is promised of
/// the outcome.
#[verifier::external_body]
fn chan_send(tx: Sender<Response>, resp: Response) -> (ok: bool)
{
    tx.send(resp).is_ok()
}

/// The table of pending requests. Its model is the map of entries; every
/// operation is atomic on the underlying concurrent map.
pub struct CorrelationTable {
    map: TableMap,
}

impl View for CorrelationTable {
    type V = Map<i64, Sender<Response>>;

    closed spec fn view(&self) -> Map<i64, Sender<Response>> {
        table_entries(self.map)
    }
}

impl CorrelationTable {
    /// An empty table.
    pub fn new() -> (t: CorrelationTable)
        ensures
            t@ == Map::<i64, Sender<Response>>::empty(),
    {
        CorrelationTable { map: table_new_map() }
    }

    /// Files a pending entry. An id may be registered only while no live
    /// entry holds it; the id generator's monotonicity gives callers that.
    pub fn register(&mut self, id: i64, tx: Sender<Response>)
        requires
            !old(self)@.dom().contains(id),
        ensures
            final(self)@ == old(self)@.insert(id, tx),
    {
        table_insert(&mut self.map, id, tx);
    }

    /// Takes the entry for `id` out, if present, and delivers `resp` through
    /// it; reports whether an entry was found. Removal and delivery are one
    /// step, so a second response for the same id finds nothing.
    pub fn resolve(&mut self, id: i64, resp: Response) -> (found: bool)
        requires
            resp.id@ == RequestIdV::Int(id as int),
        ensures
            final(self)@ == old(self)@.remove(id),
            found <==> old(self)@.dom().contains(id),
    {
        match table_take(&mut self.map, id) {
            Some(tx) => {
                let _ = chan_send(tx, resp);
                true
            },
            None => false,
        }
    }

    /// Takes the entry for `id` out without delivering anything; used when an
    /// awaiter is abandoned, so the table cannot grow without bound.
    pub fn cancel(&mut self, id: i64) -> (found: bool)
        ensures
            final(self)@ == old(self)@.remove(id),
            found <==> old(self)@.dom().contains(id),
    {
        match table_take(&mut self.map, id) {
            Some(_) => true,
            None => false,
        }
    }
}

} // verus!
