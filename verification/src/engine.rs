use vstd::prelude::*;
use vstd::string::*;
use crate::devices::{
    copy_refs, lacks_session, may_receive, place_of_device, refs, DeviceRecord, DeviceStore,
    TrustState,
};
use crate::error::EngineError;
use crate::groups::{
    after_invalidate, after_share, after_user_change, can_seal, lemma_share_keeps_one_per_room,
    open_outcome, share_due, Envelope, GroupRegistry,
};
use crate::ids::{
    accepted_names, is_room_id, is_user_id, room_id_accepted, texts, user_id_accepted,
    valid_user_ids,
};
use crate::ledger::{unclaimed_key, KeyLedger};
use crate::requests::{DeviceRef, Payload, PendingRequest, RequestQueue};
use crate::tracking::{accepted_among, Tracker};

verus! {

/// What the host configures: the supply of one-time keys below which more are
/// uploaded, and the number of messages after which a room's outbound session
/// is rotated.
#[derive(Clone, Copy, Debug)]
pub struct Settings {
    pub low_water: usize,
    pub rotation_limit: u64,
}

/// The engine of one device: its tables and its queue of pending requests,
/// owned as one value. Every command takes it by exclusive reference, so no
/// reader ever sees a half-applied change.
pub struct Engine {
    pub user_id: String,
    pub device_id: String,
    pub tracker: Tracker,
    pub devices: DeviceStore,
    pub ledger: KeyLedger,
    pub groups: GroupRegistry,
    pub queue: RequestQueue,
}

/// Whether `post` is `pre` with one request added at the end, under the
/// identifier `id`, which is the one `pre` had in store.
pub open spec fn one_staged(pre: RequestQueue, post: RequestQueue, id: u64) -> bool {
    &&& id == pre.next_id()
    &&& post.next_id() == id + 1
    &&& post.entries().len() == pre.entries().len() + 1
    &&& post.entries().drop_last() == pre.entries()
    &&& post.entries().last().request_id == id
}

impl Engine {
    /// Every table is well formed.
    pub open spec fn wf(&self) -> bool {
        &&& self.tracker.wf()
        &&& self.devices.wf()
        &&& self.ledger.wf()
        &&& self.groups.wf()
        &&& self.queue.wf()
    }

    /// Whether a further request identifier and a further session number can
    /// be given out.
    pub open spec fn has_capacity(&self) -> bool {
        self.queue.next_id() < u64::MAX && self.groups.next_session() < u64::MAX
    }

    /// Whether a further request identifier and a further session number can
    /// be given out. The commands that stage a request or share a room key
    /// ask for this.
    pub fn check_capacity(&self) -> (b: bool)
        ensures
            b == self.has_capacity(),
    {
        self.queue.upcoming_id() < u64::MAX && self.groups.upcoming_session() < u64::MAX
    }

    /// An engine for the device `device_id` of `user_id`, with empty tables.
    /// A malformed user identifier is rejected.
    pub fn new(user_id: &str, device_id: &str, settings: Settings) -> (r: Result<
        Engine,
        EngineError,
    >)
        ensures
            match r {
                Ok(e) => {
                    &&& user_id_accepted(user_id@)
                    &&& e.wf()
                    &&& e.has_capacity()
                    &&& e.user_id@ == user_id@
                    &&& e.device_id@ == device_id@
                    &&& e.tracker.watched() == Set::<Seq<char>>::empty()
                    &&& e.tracker.query_list() == Seq::<Seq<char>>::empty()
                    &&& e.devices.records() == Seq::<DeviceRecord>::empty()
                    &&& e.ledger.keys().len() == 0
                    &&& e.ledger.published() == 0
                    &&& !e.ledger.identity_uploaded()
                    &&& !e.ledger.in_flight()
                    &&& e.ledger.low_water() == settings.low_water
                    &&& e.groups.outbound().len() == 0
                    &&& e.groups.inbound().len() == 0
                    &&& e.groups.limit() == settings.rotation_limit
                    &&& e.groups.next_session() == 0
                    &&& e.queue.entries() == Seq::<PendingRequest>::empty()
                    &&& e.queue.next_id() == 0
                },
                Err(e) => e == EngineError::InvalidIdentifier && !user_id_accepted(user_id@),
            },
    {
        if !is_user_id(user_id) {
            return Err(EngineError::InvalidIdentifier);
        }
        Ok(Engine::with_empty_tables(user_id.to_owned(), device_id.to_owned(), settings))
    }

    /// An engine with empty tables for a device whose user identifier has
    /// been checked already.
    pub fn with_empty_tables(user_id: String, device_id: String, settings: Settings) -> (e: Engine)
        ensures
            e.wf(),
            e.has_capacity(),
            e.user_id == user_id,
            e.device_id == device_id,
            e.tracker.watched() == Set::<Seq<char>>::empty(),
            e.tracker.query_list() == Seq::<Seq<char>>::empty(),
            e.devices.records() == Seq::<DeviceRecord>::empty(),
            e.ledger.keys().len() == 0,
            e.ledger.published() == 0,
            !e.ledger.identity_uploaded(),
            !e.ledger.in_flight(),
            e.ledger.low_water() == settings.low_water,
            e.groups.outbound().len() == 0,
            e.groups.inbound().len() == 0,
            e.groups.limit() == settings.rotation_limit,
            e.groups.next_session() == 0,
            e.queue.entries() == Seq::<PendingRequest>::empty(),
            e.queue.next_id() == 0,
    {
        Engine {
            user_id,
            device_id,
            tracker: Tracker::new(),
            devices: DeviceStore::new(),
            ledger: KeyLedger::new(settings.low_water),
            groups: GroupRegistry::new(settings.rotation_limit),
            queue: RequestQueue::new(),
        }
    }

    /// Whether the host should upload keys: the identity keys were never
    /// uploaded, or the supply of one-time keys is below the low-water mark.
    pub fn should_upload_keys(&self) -> (due: bool)
        requires
            self.wf(),
        ensures
            due == self.ledger.upload_due(),
    {
        self.ledger.should_upload_keys()
    }

    /// Whether any user needs a key query.
    pub fn should_query_keys(&self) -> (due: bool)
        ensures
            due == (self.tracker.query_list().len() > 0),
    {
        self.tracker.should_query_keys()
    }

    /// The users that need a key query. Nothing changes.
    pub fn users_for_key_query(&self) -> (out: Vec<String>)
        ensures
            texts(out@) == self.tracker.query_list(),
    {
        self.tracker.users_for_key_query()
    }

    /// Whether the key of `room_id` has to be shared before the next message:
    /// the room has no outbound session, or the one it has is worn out.
    pub fn should_share_group_session(&self, room_id: &String) -> (due: bool)
        ensures
            due == share_due(self.groups.outbound(), self.groups.limit(), room_id@),
    {
        self.groups.should_share_group_session(room_id)
    }

    /// The requests that have not been acknowledged, oldest first. Nothing
    /// changes, so two calls in a row show the same requests.
    pub fn outgoing_requests(&self) -> (out: &Vec<PendingRequest>)
        ensures
            out@ == self.queue.entries(),
    {
        self.queue.outgoing_requests()
    }

    /// Starts tracking the well-formed identifiers among `users`; those that
    /// were not tracked before now need a key query. Malformed entries are
    /// passed over.
    pub fn update_tracked_users(&mut self, users: &Vec<String>)
        requires
            old(self).wf(),
        ensures
            final(self).wf(),
            final(self).tracker.watched() == old(self).tracker.watched().union(
                accepted_among(users@),
            ),
            final(self).tracker.needing_query() == old(self).tracker.needing_query().union(
                accepted_among(users@).difference(old(self).tracker.watched()),
            ),
            final(self).user_id == old(self).user_id,
            final(self).device_id == old(self).device_id,
            final(self).devices == old(self).devices,
            final(self).ledger == old(self).ledger,
            final(self).groups == old(self).groups,
            final(self).queue == old(self).queue,
    {
        self.tracker.update_tracked_users(users);
    }

    /// Sets the trust state of a known device. Blacklisting a device puts the
    /// outbound sessions out of date whose key went to its user's devices, so
    /// that the next share rotates them. An unknown device changes nothing;
    /// the result says whether the device was known.
    pub fn set_device_trust(&mut self, user_id: &String, device_id: &String, trust: TrustState) -> (known:
        bool)
        requires
            old(self).wf(),
        ensures
            final(self).wf(),
            final(self).user_id == old(self).user_id,
            final(self).device_id == old(self).device_id,
            final(self).tracker == old(self).tracker,
            final(self).ledger == old(self).ledger,
            final(self).queue == old(self).queue,
            known == (place_of_device(old(self).devices.records(), (user_id@, device_id@)) is Some),
            final(self).devices.records() == match place_of_device(
                old(self).devices.records(),
                (user_id@, device_id@),
            ) {
                Some(i) => old(self).devices.records().update(
                    i,
                    DeviceRecord { trust, ..old(self).devices.records()[i] },
                ),
                None => old(self).devices.records(),
            },
            final(self).groups.limit() == old(self).groups.limit(),
            final(self).groups.inbound() == old(self).groups.inbound(),
            final(self).groups.next_session() == old(self).groups.next_session(),
            final(self).groups.outbound() == if known && trust == TrustState::Blacklisted {
                after_user_change(old(self).groups.outbound(), user_id@)
            } else {
                old(self).groups.outbound()
            },
    {
        let known = self.devices.set_trust(user_id, device_id, trust);
        if known && matches!(trust, TrustState::Blacklisted) {
            self.groups.invalidate_for_user(user_id);
        }
        known
    }

    /// Takes a freshly generated batch of one-time public keys and stages the
    /// upload of it, with the identity keys on the first upload. While an
    /// upload awaits its confirmation no second batch is taken: the result is
    /// `None` and nothing changes.
    pub fn keys_for_upload(&mut self, fresh: &Vec<String>) -> (r: Option<u64>)
        requires
            old(self).wf(),
            old(self).has_capacity(),
        ensures
            final(self).wf(),
            final(self).user_id == old(self).user_id,
            final(self).device_id == old(self).device_id,
            final(self).tracker == old(self).tracker,
            final(self).devices == old(self).devices,
            final(self).groups == old(self).groups,
            final(self).ledger.published() == old(self).ledger.published(),
            final(self).ledger.identity_uploaded() == old(self).ledger.identity_uploaded(),
            final(self).ledger.low_water() == old(self).ledger.low_water(),
            final(self).ledger.in_flight(),
            match r {
                None => {
                    &&& old(self).ledger.in_flight()
                    &&& final(self).ledger.keys() == old(self).ledger.keys()
                    &&& final(self).queue == old(self).queue
                },
                Some(id) => {
                    &&& !old(self).ledger.in_flight()
                    &&& final(self).ledger.keys() == old(self).ledger.keys() + fresh@.map_values(
                        |s: String| unclaimed_key(s),
                    )
                    &&& id == old(self).queue.next_id()
                    &&& final(self).queue.next_id() == id + 1
                    &&& final(self).queue.entries() == old(self).queue.entries().push(
                        (PendingRequest {
                            request_id: id,
                            payload: Payload::UploadKeys {
                                with_identity: !old(self).ledger.identity_uploaded(),
                                first_key: old(self).ledger.keys().len() as usize,
                                count: fresh@.len() as usize,
                            },
                        }),
                    )
                },
            },
    {
        match self.ledger.stage_batch(fresh) {
            None => None,
            Some((with_identity, first_key, count)) => {
                let id = self.queue.stage(Payload::UploadKeys { with_identity, first_key, count });
                Some(id)
            },
        }
    }

    /// Stages a key query for the users that need one and returns its request
    /// identifier. Where nobody needs a query, nothing changes. The users go
    /// on waiting until an answer covers them.
    pub fn request_key_query(&mut self) -> (r: Option<u64>)
        requires
            old(self).wf(),
            old(self).has_capacity(),
        ensures
            final(self).wf(),
            final(self).user_id == old(self).user_id,
            final(self).device_id == old(self).device_id,
            final(self).tracker == old(self).tracker,
            final(self).devices == old(self).devices,
            final(self).ledger == old(self).ledger,
            final(self).groups == old(self).groups,
            match r {
                None => old(self).tracker.query_list().len() == 0 && final(self).queue == old(
                    self,
                ).queue,
                Some(id) => {
                    &&& old(self).tracker.query_list().len() > 0
                    &&& one_staged(old(self).queue, final(self).queue, id)
                    &&& match final(self).queue.entries().last().payload {
                        Payload::QueryKeys { users } => texts(users@) == old(
                            self,
                        ).tracker.query_list(),
                        _ => false,
                    }
                },
            },
    {
        if !self.tracker.should_query_keys() {
            return None;
        }
        let users = self.tracker.users_for_key_query();
        let ghost before = self.queue.entries();
        let id = self.queue.stage(Payload::QueryKeys { users });
        assert(self.queue.entries().drop_last() =~= before);
        Some(id)
    }

    /// Settles what the cipher made of a room message sealed under the
    /// session `session_id` of `room_id`. Where no inbound session is known
    /// under that room and number the session is missing, whatever the cipher
    /// said: the room key may not have arrived yet. Where the cipher rejected
    /// the message (`None`) that is a cryptographic failure. Else the opened
    /// content is handed on as it is.
    pub fn decrypt(&self, room_id: &String, session_id: u64, opened: Option<String>) -> (r: Result<
        String,
        EngineError,
    >)
        ensures
            r == open_outcome(self.groups.inbound(), room_id@, session_id, opened),
    {
        self.groups.open(room_id, session_id, opened)
    }

    /// The devices of the well-formed users among `users` that the server
    /// still reports and that have no pairwise session yet. Where there are
    /// any, a key claim for them is
    /// staged and returned with its request identifier; where there are none,
    /// nothing changes.
    pub fn get_missing_sessions(&mut self, users: &Vec<String>) -> (r: Option<
        (u64, Vec<DeviceRef>),
    >)
        requires
            old(self).wf(),
            old(self).has_capacity(),
        ensures
            final(self).wf(),
            final(self).user_id == old(self).user_id,
            final(self).device_id == old(self).device_id,
            final(self).tracker == old(self).tracker,
            final(self).devices == old(self).devices,
            final(self).ledger == old(self).ledger,
            final(self).groups == old(self).groups,
            match r {
                None => {
                    &&& old(self).devices.records().filter(
                        lacks_session(accepted_names(users@)),
                    ).len() == 0
                    &&& final(self).queue == old(self).queue
                },
                Some((id, targets)) => {
                    &&& targets@.len() > 0
                    &&& refs(targets@) == old(self).devices.records().filter(
                        lacks_session(accepted_names(users@)),
                    ).map_values(|d: DeviceRecord| d.key())
                    &&& one_staged(old(self).queue, final(self).queue, id)
                    &&& match final(self).queue.entries().last().payload {
                        Payload::ClaimKeys { targets: staged } => refs(staged@) == refs(targets@),
                        _ => false,
                    }
                },
            },
    {
        let valid = valid_user_ids(users);
        let targets = self.devices.missing_sessions(&valid);
        assert(refs(targets@).len() == targets@.len());
        if targets.len() == 0 {
            return None;
        }
        let staged = copy_refs(&targets);
        let ghost before = self.queue.entries();
        let id = self.queue.stage(Payload::ClaimKeys { targets: staged });
        assert(self.queue.entries().drop_last() =~= before);
        Some((id, targets))
    }

    /// Shares the key of the room `room_id`, at time `now`, with the devices
    /// of the well-formed users among `users` that may receive it: the
    /// devices that the server still reports, that are not blacklisted and
    /// that have a pairwise session. The room gets an outbound session where
    /// it has none or a worn-out one. The delivery is staged as a to-device
    /// request; the result gives its request identifier and the devices it
    /// is addressed to. A device that comes to be known later is not part of
    /// this round. A malformed room identifier is rejected and changes
    /// nothing.
    pub fn share_group_session(&mut self, room_id: &String, users: &Vec<String>, now: u64) -> (r:
        Result<
        (u64, Vec<DeviceRef>),
        EngineError,
    >)
        requires
            old(self).wf(),
            old(self).has_capacity(),
        ensures
            final(self).wf(),
            final(self).user_id == old(self).user_id,
            final(self).device_id == old(self).device_id,
            final(self).tracker == old(self).tracker,
            final(self).devices == old(self).devices,
            final(self).ledger == old(self).ledger,
            final(self).groups.limit() == old(self).groups.limit(),
            final(self).groups.inbound() == old(self).groups.inbound(),
            match r {
                Err(e) => {
                    &&& e == EngineError::InvalidIdentifier
                    &&& !room_id_accepted(room_id@)
                    &&& final(self).groups == old(self).groups
                    &&& final(self).queue == old(self).queue
                },
                Ok((id, targets)) => {
                    &&& room_id_accepted(room_id@)
                    &&& refs(targets@) == old(self).devices.records().filter(
                        may_receive(accepted_names(users@)),
                    ).map_values(|d: DeviceRecord| d.key())
                    &&& final(self).groups.outbound() == after_share(
                        old(self).groups.outbound(),
                        old(self).groups.limit(),
                        room_id@,
                        refs(targets@),
                        old(self).groups.next_session(),
                        now,
                    )
                    &&& final(self).groups.next_session() == if share_due(
                        old(self).groups.outbound(),
                        old(self).groups.limit(),
                        room_id@,
                    ) {
                        (old(self).groups.next_session() + 1) as u64
                    } else {
                        old(self).groups.next_session()
                    }
                    &&& final(self).groups.limit() > 0 ==> !share_due(
                        final(self).groups.outbound(),
                        final(self).groups.limit(),
                        room_id@,
                    )
                    &&& one_staged(old(self).queue, final(self).queue, id)
                    &&& match final(self).queue.entries().last().payload {
                        Payload::ToDevice { room_id: room, session_id, targets: staged } => {
                            &&& room@ == room_id@
                            &&& refs(staged@) == refs(targets@)
                            &&& session_id == if share_due(
                                old(self).groups.outbound(),
                                old(self).groups.limit(),
                                room_id@,
                            ) {
                                old(self).groups.next_session()
                            } else {
                                old(self).groups.outbound()[crate::groups::place_of_room(
                                    old(self).groups.outbound(),
                                    room_id@,
                                )->0].session_id
                            }
                        },
                        _ => false,
                    }
                },
            },
    {
        if !is_room_id(room_id.as_str()) {
            return Err(EngineError::InvalidIdentifier);
        }
        let valid = valid_user_ids(users);
        let targets = self.devices.share_targets(&valid);
        let holders = copy_refs(&targets);
        let staged = copy_refs(&targets);
        proof {
            lemma_share_keeps_one_per_room(
                self.groups.outbound(),
                self.groups.limit(),
                room_id@,
                refs(targets@),
                self.groups.next_session(),
                now,
            );
        }
        let session_id = self.groups.share(room_id, holders, now);
        let ghost before = self.queue.entries();
        let id = self.queue.stage(
            Payload::ToDevice { room_id: room_id.clone(), session_id, targets: staged },
        );
        assert(self.queue.entries().drop_last() =~= before);
        Ok((id, targets))
    }

    /// Asks for a rotation of the outbound session of `room_id`: the session
    /// carries no further message, and the next share replaces it. A room
    /// without an outbound session changes nothing.
    pub fn invalidate_group_session(&mut self, room_id: &String)
        requires
            old(self).wf(),
        ensures
            final(self).wf(),
            final(self).user_id == old(self).user_id,
            final(self).device_id == old(self).device_id,
            final(self).tracker == old(self).tracker,
            final(self).devices == old(self).devices,
            final(self).ledger == old(self).ledger,
            final(self).queue == old(self).queue,
            final(self).groups.limit() == old(self).groups.limit(),
            final(self).groups.inbound() == old(self).groups.inbound(),
            final(self).groups.next_session() == old(self).groups.next_session(),
            final(self).groups.outbound() == after_invalidate(
                old(self).groups.outbound(),
                room_id@,
            ),
    {
        self.groups.invalidate(room_id);
    }

    /// Takes the next step of the outbound session of `room_id` for the
    /// message `content` and returns the order for the cipher to seal it. A
    /// malformed room identifier is rejected; a room without an outbound
    /// session that may carry a message has its session missing, and the key
    /// has to be shared first. Neither changes anything.
    pub fn encrypt(&mut self, room_id: &String, content: String) -> (r: Result<
        Envelope,
        EngineError,
    >)
        requires
            old(self).wf(),
        ensures
            final(self).wf(),
            final(self).user_id == old(self).user_id,
            final(self).device_id == old(self).device_id,
            final(self).tracker == old(self).tracker,
            final(self).devices == old(self).devices,
            final(self).ledger == old(self).ledger,
            final(self).queue == old(self).queue,
            final(self).groups.limit() == old(self).groups.limit(),
            final(self).groups.inbound() == old(self).groups.inbound(),
            final(self).groups.next_session() == old(self).groups.next_session(),
            final(self).groups.outbound() == if room_id_accepted(room_id@) {
                crate::groups::after_seal(
                    old(self).groups.outbound(),
                    old(self).groups.limit(),
                    room_id@,
                )
            } else {
                old(self).groups.outbound()
            },
            match r {
                Ok(order) => {
                    &&& room_id_accepted(room_id@)
                    &&& can_seal(old(self).groups.outbound(), old(self).groups.limit(), room_id@)
                    &&& order.room_id@ == room_id@
                    &&& order.content == content
                    &&& order.session_id == old(self).groups.outbound()[crate::groups::place_of_room(
                        old(self).groups.outbound(),
                        room_id@,
                    )->0].session_id
                    &&& order.message_index == old(self).groups.outbound()[crate::groups::place_of_room(
                        old(self).groups.outbound(),
                        room_id@,
                    )->0].message_count
                },
                Err(e) => if !room_id_accepted(room_id@) {
                    e == EngineError::InvalidIdentifier
                } else {
                    e == EngineError::MissingSession && !can_seal(
                        old(self).groups.outbound(),
                        old(self).groups.limit(),
                        room_id@,
                    )
                },
            },
    {
        if !is_room_id(room_id.as_str()) {
            return Err(EngineError::InvalidIdentifier);
        }
        self.groups.seal(room_id, content)
    }
}

} // verus!
