use vstd::prelude::*;
use crate::devices::{after_handshake, place_of_device, DeviceRecord};
use crate::engine::Engine;
use crate::groups::{after_invalidate, OutboundView};
use crate::ids::texts;
use crate::ledger::{after_claim, claimable, OneTimeKey};
use crate::requests::DeviceRef;
use crate::tracking::{lemma_listed_take, listed};

verus! {

/// A room key that a sender has delivered to this device.
pub struct RoomKey {
    pub room_id: String,
    pub session_id: u64,
    pub sender_key: String,
}

impl RoomKey {
    /// The room and session number under which the key is kept.
    pub open spec fn key(&self) -> (Seq<char>, u64) {
        (self.room_id@, self.session_id)
    }
}

/// The first message of a channel that a peer has opened with one of this
/// device's one-time keys.
pub struct PreKeyMessage {
    pub sender: DeviceRef,
    pub key_id: usize,
}

/// What one sync brought, section by section. A section that could not be
/// read is `None`; the other sections are taken in all the same.
pub struct SyncChanges {
    /// Users whose device list has changed.
    pub changed_users: Option<Vec<String>>,
    /// Channels that peers have opened.
    pub pre_keys: Option<Vec<PreKeyMessage>>,
    /// Room keys that were delivered.
    pub room_keys: Option<Vec<RoomKey>>,
    /// Rooms whose membership has changed.
    pub changed_rooms: Option<Vec<String>>,
    /// The time of the sync.
    pub now: u64,
}

/// The inbound sessions after the room keys `keys` came, one after the
/// other: the first key under a room and number stays.
pub open spec fn after_room_keys(inbound: Seq<(Seq<char>, u64)>, keys: Seq<RoomKey>) -> Seq<
    (Seq<char>, u64),
>
    decreases keys.len(),
{
    if keys.len() == 0 {
        inbound
    } else {
        let before = after_room_keys(inbound, keys.drop_last());
        if before.contains(keys.last().key()) {
            before
        } else {
            before.push(keys.last().key())
        }
    }
}

/// A room key that was delivered is found again: after the keys `keys` came,
/// an inbound session is known under the room and number of each of them, so
/// a message sealed under that room and number is never answered with a
/// missing session.
pub proof fn lemma_delivered_key_is_kept(
    inbound: Seq<(Seq<char>, u64)>,
    keys: Seq<RoomKey>,
    i: int,
)
    requires
        0 <= i < keys.len(),
    ensures
        after_room_keys(inbound, keys).contains(keys[i].key()),
        forall|k: (Seq<char>, u64)| inbound.contains(k) ==> after_room_keys(inbound, keys).contains(k),
    decreases keys.len(),
{
    let before = after_room_keys(inbound, keys.drop_last());
    let after = after_room_keys(inbound, keys);
    lemma_inbound_is_kept(inbound, keys);
    if i == keys.len() - 1 {
        if !before.contains(keys.last().key()) {
            assert(after[before.len() as int] == keys.last().key());
        }
    } else {
        lemma_delivered_key_is_kept(inbound, keys.drop_last(), i);
        assert(keys.drop_last()[i] == keys[i]);
        let j = choose|j: int| 0 <= j < before.len() && before[j] == keys[i].key();
        assert(after[j] == keys[i].key());
    }
}

/// Taking in room keys drops no inbound session.
pub proof fn lemma_inbound_is_kept(inbound: Seq<(Seq<char>, u64)>, keys: Seq<RoomKey>)
    ensures
        forall|k: (Seq<char>, u64)| inbound.contains(k) ==> after_room_keys(inbound, keys).contains(k),
    decreases keys.len(),
{
    if keys.len() > 0 {
        lemma_inbound_is_kept(inbound, keys.drop_last());
        let before = after_room_keys(inbound, keys.drop_last());
        let after = after_room_keys(inbound, keys);
        assert forall|k: (Seq<char>, u64)| inbound.contains(k) implies after.contains(k) by {
            assert(before.contains(k));
            let j = choose|j: int| 0 <= j < before.len() && before[j] == k;
            assert(after[j] == k);
        }
    }
}

/// The outbound sessions after a rotation was asked for in each of `rooms`.
pub open spec fn after_invalidations(sessions: Seq<OutboundView>, rooms: Seq<String>) -> Seq<
    OutboundView,
>
    decreases rooms.len(),
{
    if rooms.len() == 0 {
        sessions
    } else {
        after_invalidate(after_invalidations(sessions, rooms.drop_last()), rooms.last()@)
    }
}

/// Whether the channel that `message` opens is taken up: the sender's device
/// is known and has no session, and the key is published and free.
pub open spec fn pre_key_accepted(
    keys: Seq<OneTimeKey>,
    published: int,
    records: Seq<DeviceRecord>,
    message: PreKeyMessage,
) -> bool {
    &&& place_of_device(records, message.sender@) is Some
    &&& records[place_of_device(records, message.sender@)->0].session is None
    &&& claimable(keys, published, message.key_id as int)
}

/// The one-time keys and the device records after the channels of
/// `messages` were opened, one after the other: a channel that is taken up
/// gives its key to the sender and the sender's device a session; any other
/// changes nothing.
pub open spec fn after_pre_keys(
    keys: Seq<OneTimeKey>,
    records: Seq<DeviceRecord>,
    published: int,
    messages: Seq<PreKeyMessage>,
    now: u64,
) -> (Seq<OneTimeKey>, Seq<DeviceRecord>)
    decreases messages.len(),
{
    if messages.len() == 0 {
        (keys, records)
    } else {
        let before = after_pre_keys(keys, records, published, messages.drop_last(), now);
        let m = messages.last();
        if pre_key_accepted(before.0, published, before.1, m) {
            (
                after_claim(before.0, published, m.key_id as int, m.sender),
                after_handshake(before.1, m.sender@, now),
            )
        } else {
            before
        }
    }
}

impl Engine {
    /// Notes the users whose device list has changed: those that are watched
    /// now need a key query.
    pub fn receive_device_list_changes(&mut self, users: &Vec<String>)
        requires
            old(self).wf(),
        ensures
            final(self).wf(),
            final(self).user_id == old(self).user_id,
            final(self).device_id == old(self).device_id,
            final(self).devices == old(self).devices,
            final(self).ledger == old(self).ledger,
            final(self).groups == old(self).groups,
            final(self).queue == old(self).queue,
            final(self).tracker.watched() == old(self).tracker.watched(),
            final(self).tracker.needing_query() == old(self).tracker.needing_query().union(
                texts(users@).to_set().intersect(old(self).tracker.watched()),
            ),
    {
        let mut i: usize = 0;
        proof {
            assert(users@.take(0) =~= Seq::<String>::empty());
            assert(texts(users@.take(0)) =~= Seq::<Seq<char>>::empty());
            assert(self.tracker.needing_query() =~= old(self).tracker.needing_query().union(
                texts(users@.take(0)).to_set().intersect(old(self).tracker.watched()),
            ));
        }
        while i < users.len()
            invariant
                i <= users.len(),
                self.wf(),
                self.user_id == old(self).user_id,
                self.device_id == old(self).device_id,
                self.devices == old(self).devices,
                self.ledger == old(self).ledger,
                self.groups == old(self).groups,
                self.queue == old(self).queue,
                self.tracker.watched() == old(self).tracker.watched(),
                self.tracker.needing_query() == old(self).tracker.needing_query().union(
                    texts(users@.take(i as int)).to_set().intersect(old(self).tracker.watched()),
                ),
            decreases users.len() - i,
        {
            let ghost before = self.tracker.needing_query();
            self.tracker.mark_changed(&users[i]);
            proof {
                let goal = old(self).tracker.needing_query().union(
                    texts(users@.take(i + 1)).to_set().intersect(old(self).tracker.watched()),
                );
                assert forall|u: Seq<char>| self.tracker.needing_query().contains(u) <==> goal.contains(
                    u,
                ) by {
                    lemma_listed_take(users@, i as int, u);
                    assert(listed(users@.take(i + 1), u) <==> texts(users@.take(i + 1)).to_set().contains(
                        u,
                    ));
                    assert(listed(users@.take(i as int), u) <==> texts(
                        users@.take(i as int),
                    ).to_set().contains(u));
                }
                assert(self.tracker.needing_query() =~= goal);
            }
            i += 1;
        }
        assert(users@.take(users.len() as int) =~= users@);
    }

    /// Takes up the channels that peers have opened, one after the other.
    pub fn receive_pre_key_messages(&mut self, messages: &Vec<PreKeyMessage>, now: u64)
        requires
            old(self).wf(),
        ensures
            final(self).wf(),
            final(self).user_id == old(self).user_id,
            final(self).device_id == old(self).device_id,
            final(self).tracker == old(self).tracker,
            final(self).groups == old(self).groups,
            final(self).queue == old(self).queue,
            final(self).ledger.published() == old(self).ledger.published(),
            final(self).ledger.identity_uploaded() == old(self).ledger.identity_uploaded(),
            final(self).ledger.in_flight() == old(self).ledger.in_flight(),
            final(self).ledger.low_water() == old(self).ledger.low_water(),
            (final(self).ledger.keys(), final(self).devices.records()) == after_pre_keys(
                old(self).ledger.keys(),
                old(self).devices.records(),
                old(self).ledger.published(),
                messages@,
                now,
            ),
    {
        let mut i: usize = 0;
        assert(messages@.take(0) =~= Seq::<PreKeyMessage>::empty());
        while i < messages.len()
            invariant
                i <= messages.len(),
                self.wf(),
                self.user_id == old(self).user_id,
                self.device_id == old(self).device_id,
                self.tracker == old(self).tracker,
                self.groups == old(self).groups,
                self.queue == old(self).queue,
                self.ledger.published() == old(self).ledger.published(),
                self.ledger.identity_uploaded() == old(self).ledger.identity_uploaded(),
                self.ledger.in_flight() == old(self).ledger.in_flight(),
                self.ledger.low_water() == old(self).ledger.low_water(),
                (self.ledger.keys(), self.devices.records()) == after_pre_keys(
                    old(self).ledger.keys(),
                    old(self).devices.records(),
                    old(self).ledger.published(),
                    messages@.take(i as int),
                    now,
                ),
            decreases messages.len() - i,
        {
            proof {
                let next = messages@.take(i + 1);
                assert(next.drop_last() =~= messages@.take(i as int));
                assert(next.last() == messages@[i as int]);
            }
            let sender = DeviceRef {
                user_id: messages[i].sender.user_id.clone(),
                device_id: messages[i].sender.device_id.clone(),
            };
            assert(sender == messages@[i as int].sender);
            let _ = self.receive_pre_key_message(sender, messages[i].key_id, now);
            i += 1;
        }
        assert(messages@.take(messages.len() as int) =~= messages@);
    }

    /// Takes in the room keys that were delivered, one after the other.
    pub fn receive_room_keys(&mut self, keys: &Vec<RoomKey>)
        requires
            old(self).wf(),
        ensures
            final(self).wf(),
            final(self).user_id == old(self).user_id,
            final(self).device_id == old(self).device_id,
            final(self).tracker == old(self).tracker,
            final(self).devices == old(self).devices,
            final(self).ledger == old(self).ledger,
            final(self).queue == old(self).queue,
            final(self).groups.limit() == old(self).groups.limit(),
            final(self).groups.next_session() == old(self).groups.next_session(),
            final(self).groups.outbound() == old(self).groups.outbound(),
            final(self).groups.inbound() == after_room_keys(old(self).groups.inbound(), keys@),
    {
        let mut i: usize = 0;
        assert(keys@.take(0) =~= Seq::<RoomKey>::empty());
        while i < keys.len()
            invariant
                i <= keys.len(),
                self.wf(),
                self.user_id == old(self).user_id,
                self.device_id == old(self).device_id,
                self.tracker == old(self).tracker,
                self.devices == old(self).devices,
                self.ledger == old(self).ledger,
                self.queue == old(self).queue,
                self.groups.limit() == old(self).groups.limit(),
                self.groups.next_session() == old(self).groups.next_session(),
                self.groups.outbound() == old(self).groups.outbound(),
                self.groups.inbound() == after_room_keys(
                    old(self).groups.inbound(),
                    keys@.take(i as int),
                ),
            decreases keys.len() - i,
        {
            proof {
                let next = keys@.take(i + 1);
                assert(next.drop_last() =~= keys@.take(i as int));
                assert(next.last() == keys@[i as int]);
            }
            let _ = self.groups.add_inbound(
                keys[i].room_id.clone(),
                keys[i].session_id,
                keys[i].sender_key.clone(),
            );
            i += 1;
        }
        assert(keys@.take(keys.len() as int) =~= keys@);
    }

    /// Notes the rooms whose membership has changed: the outbound session of
    /// each carries no further message, so that the next share rotates it.
    pub fn receive_membership_changes(&mut self, rooms: &Vec<String>)
        requires
            old(self).wf(),
        ensures
            final(self).wf(),
            final(self).user_id == old(self).user_id,
            final(self).device_id == old(self).device_id,
            final(self).tracker == old(self).tracker,
            final(self).devices == old(self).devices,
            final(self).ledger == old(self).ledger,
            final(self).queue == old(self).queue,
            final(self).groups.limit() == old(self).groups.limit(),
            final(self).groups.next_session() == old(self).groups.next_session(),
            final(self).groups.inbound() == old(self).groups.inbound(),
            final(self).groups.outbound() == after_invalidations(
                old(self).groups.outbound(),
                rooms@,
            ),
    {
        let mut i: usize = 0;
        assert(rooms@.take(0) =~= Seq::<String>::empty());
        while i < rooms.len()
            invariant
                i <= rooms.len(),
                self.wf(),
                self.user_id == old(self).user_id,
                self.device_id == old(self).device_id,
                self.tracker == old(self).tracker,
                self.devices == old(self).devices,
                self.ledger == old(self).ledger,
                self.queue == old(self).queue,
                self.groups.limit() == old(self).groups.limit(),
                self.groups.next_session() == old(self).groups.next_session(),
                self.groups.inbound() == old(self).groups.inbound(),
                self.groups.outbound() == after_invalidations(
                    old(self).groups.outbound(),
                    rooms@.take(i as int),
                ),
            decreases rooms.len() - i,
        {
            proof {
                let next = rooms@.take(i + 1);
                assert(next.drop_last() =~= rooms@.take(i as int));
                assert(next.last() == rooms@[i as int]);
            }
            self.groups.invalidate(&rooms[i]);
            i += 1;
        }
        assert(rooms@.take(rooms.len() as int) =~= rooms@);
    }

    /// Takes in what one sync brought. Each section that could be read is
    /// applied in full; a section that could not be read (`None`) changes
    /// nothing and holds up no other section. The request queue is not
    /// touched.
    pub fn receive_sync_response(&mut self, changes: &SyncChanges)
        requires
            old(self).wf(),
        ensures
            final(self).wf(),
            final(self).user_id == old(self).user_id,
            final(self).device_id == old(self).device_id,
            final(self).queue == old(self).queue,
            final(self).tracker.watched() == old(self).tracker.watched(),
            final(self).tracker.needing_query() == match changes.changed_users {
                Some(users) => old(self).tracker.needing_query().union(
                    texts(users@).to_set().intersect(old(self).tracker.watched()),
                ),
                None => old(self).tracker.needing_query(),
            },
            final(self).ledger.published() == old(self).ledger.published(),
            final(self).ledger.identity_uploaded() == old(self).ledger.identity_uploaded(),
            final(self).ledger.in_flight() == old(self).ledger.in_flight(),
            final(self).ledger.low_water() == old(self).ledger.low_water(),
            (final(self).ledger.keys(), final(self).devices.records()) == match changes.pre_keys {
                Some(messages) => after_pre_keys(
                    old(self).ledger.keys(),
                    old(self).devices.records(),
                    old(self).ledger.published(),
                    messages@,
                    changes.now,
                ),
                None => (old(self).ledger.keys(), old(self).devices.records()),
            },
            final(self).groups.limit() == old(self).groups.limit(),
            final(self).groups.next_session() == old(self).groups.next_session(),
            final(self).groups.inbound() == match changes.room_keys {
                Some(keys) => after_room_keys(old(self).groups.inbound(), keys@),
                None => old(self).groups.inbound(),
            },
            final(self).groups.outbound() == match changes.changed_rooms {
                Some(rooms) => after_invalidations(old(self).groups.outbound(), rooms@),
                None => old(self).groups.outbound(),
            },
    {
        match &changes.changed_users {
            Some(users) => self.receive_device_list_changes(users),
            None => {},
        }
        match &changes.pre_keys {
            Some(messages) => self.receive_pre_key_messages(messages, changes.now),
            None => {},
        }
        match &changes.room_keys {
            Some(keys) => self.receive_room_keys(keys),
            None => {},
        }
        match &changes.changed_rooms {
            Some(rooms) => self.receive_membership_changes(rooms),
            None => {},
        }
    }
}

} // verus!
