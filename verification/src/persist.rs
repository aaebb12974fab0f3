use vstd::prelude::*;
use crate::devices::{keys, DeviceRecord, DeviceStore};
use crate::engine::Engine;
use crate::groups::{
    inbound_keys, one_per_room, outbound_views, GroupRegistry, InboundGroupSession,
    OutboundGroupSession,
};
use crate::ids::texts;
use crate::ledger::{KeyLedger, OneTimeKey};
use crate::requests::{ordered_below, PendingRequest, RequestQueue};
use crate::tracking::{listed, Tracker};

verus! {

/// The whole state of an engine as plain values, for the host to store and
/// to bring back. How it is written to bytes is the host's matter.
pub struct Snapshot {
    pub user_id: String,
    pub device_id: String,
    pub watched: Vec<String>,
    pub waiting: Vec<String>,
    pub records: Vec<DeviceRecord>,
    pub keys: Vec<OneTimeKey>,
    pub published: usize,
    pub identity_uploaded: bool,
    pub upload_in_flight: bool,
    pub low_water: usize,
    pub outbound: Vec<OutboundGroupSession>,
    pub inbound: Vec<InboundGroupSession>,
    pub next_session: u64,
    pub rotation_limit: u64,
    pub pending: Vec<PendingRequest>,
    pub next_request_id: u64,
}

impl Snapshot {
    /// Whether the values can be the state of an engine: no user waits twice
    /// for a key query and only watched users wait; no device has two
    /// records; only generated keys are published, and unpublished keys exist
    /// only with an upload in flight; no room has two outbound sessions and
    /// the session numbers lie below the next one; the request identifiers
    /// grow and lie below the next one.
    pub open spec fn consistent(&self) -> bool {
        &&& texts(self.waiting@).no_duplicates()
        &&& forall|i: int|
            0 <= i < self.waiting@.len() ==> listed(self.watched@, #[trigger] self.waiting@[i]@)
        &&& keys(self.records@).no_duplicates()
        &&& self.published <= self.keys@.len()
        &&& !self.upload_in_flight ==> self.published == self.keys@.len()
        &&& one_per_room(outbound_views(self.outbound@), self.next_session)
        &&& ordered_below(self.pending@, self.next_request_id)
    }
}

impl Engine {
    /// Hands the whole state out as plain values.
    pub fn into_snapshot(self) -> (s: Snapshot)
        requires
            self.wf(),
        ensures
            s.consistent(),
            s.user_id == self.user_id,
            s.device_id == self.device_id,
            texts(s.watched@).to_set() == self.tracker.watched(),
            texts(s.waiting@) == self.tracker.query_list(),
            s.records@ == self.devices.records(),
            s.keys@ == self.ledger.keys(),
            s.published == self.ledger.published(),
            s.identity_uploaded == self.ledger.identity_uploaded(),
            s.upload_in_flight == self.ledger.in_flight(),
            s.low_water == self.ledger.low_water(),
            outbound_views(s.outbound@) == self.groups.outbound(),
            inbound_keys(s.inbound@) == self.groups.inbound(),
            s.next_session == self.groups.next_session(),
            s.rotation_limit == self.groups.limit(),
            s.pending@ == self.queue.entries(),
            s.next_request_id == self.queue.next_id(),
    {
        let (watched, waiting) = self.tracker.into_parts();
        let records = self.devices.into_parts();
        let (keys, published, identity_uploaded, upload_in_flight, low_water) =
            self.ledger.into_parts();
        let (outbound, inbound, next_session, rotation_limit) = self.groups.into_parts();
        let (pending, next_request_id) = self.queue.into_parts();
        Snapshot {
            user_id: self.user_id,
            device_id: self.device_id,
            watched,
            waiting,
            records,
            keys,
            published,
            identity_uploaded,
            upload_in_flight,
            low_water,
            outbound,
            inbound,
            next_session,
            rotation_limit,
            pending,
            next_request_id,
        }
    }

    /// Brings an engine back from stored values. Values that cannot be the
    /// state of an engine are refused.
    pub fn restore(s: Snapshot) -> (r: Option<Engine>)
        ensures
            r is Some <==> s.consistent(),
            match r {
                Some(e) => {
                    &&& e.wf()
                    &&& e.user_id == s.user_id
                    &&& e.device_id == s.device_id
                    &&& e.tracker.watched() == texts(s.watched@).to_set()
                    &&& e.tracker.query_list() == texts(s.waiting@)
                    &&& e.devices.records() == s.records@
                    &&& e.ledger.keys() == s.keys@
                    &&& e.ledger.published() == s.published
                    &&& e.ledger.identity_uploaded() == s.identity_uploaded
                    &&& e.ledger.in_flight() == s.upload_in_flight
                    &&& e.ledger.low_water() == s.low_water
                    &&& e.groups.outbound() == outbound_views(s.outbound@)
                    &&& e.groups.inbound() == inbound_keys(s.inbound@)
                    &&& e.groups.next_session() == s.next_session
                    &&& e.groups.limit() == s.rotation_limit
                    &&& e.queue.entries() == s.pending@
                    &&& e.queue.next_id() == s.next_request_id
                },
                None => true,
            },
    {
        let tracker = Tracker::from_parts(s.watched, s.waiting);
        let devices = DeviceStore::from_parts(s.records);
        let ledger = KeyLedger::from_parts(
            s.keys,
            s.published,
            s.identity_uploaded,
            s.upload_in_flight,
            s.low_water,
        );
        let groups = GroupRegistry::from_parts(
            s.outbound,
            s.inbound,
            s.next_session,
            s.rotation_limit,
        );
        let queue = RequestQueue::from_parts(s.pending, s.next_request_id);
        match (tracker, devices, ledger, groups, queue) {
            (Some(tracker), Some(devices), Some(ledger), Some(groups), Some(queue)) => Some(
                Engine {
                    user_id: s.user_id,
                    device_id: s.device_id,
                    tracker,
                    devices,
                    ledger,
                    groups,
                    queue,
                },
            ),
            _ => None,
        }
    }
}

} // verus!
