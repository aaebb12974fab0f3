use vstd::prelude::*;
use crate::devices::refs;
use crate::error::EngineError;
use crate::requests::DeviceRef;

verus! {

/// The sending side of a room's group session. The ratchet itself stays with
/// the cipher; the engine keeps the session's number, how many messages it
/// has carried, and who has its key.
pub struct OutboundGroupSession {
    pub room_id: String,
    pub session_id: u64,
    pub message_count: u64,
    pub created_at: u64,
    pub shared_with: Vec<DeviceRef>,
    pub rotate: bool,
}

/// An outbound session as a plain value.
pub ghost struct OutboundView {
    pub room: Seq<char>,
    pub session_id: u64,
    pub message_count: u64,
    pub created_at: u64,
    pub shared_with: Seq<(Seq<char>, Seq<char>)>,
    pub rotate: bool,
}

impl View for OutboundGroupSession {
    type V = OutboundView;

    open spec fn view(&self) -> OutboundView {
        OutboundView {
            room: self.room_id@,
            session_id: self.session_id,
            message_count: self.message_count,
            created_at: self.created_at,
            shared_with: refs(self.shared_with@),
            rotate: self.rotate,
        }
    }
}

/// The receiving side of a group session of some sender in a room.
pub struct InboundGroupSession {
    pub room_id: String,
    pub session_id: u64,
    pub sender_key: String,
}

impl InboundGroupSession {
    /// The room and session number, by which the session is found.
    pub open spec fn key(&self) -> (Seq<char>, u64) {
        (self.room_id@, self.session_id)
    }
}

/// A room message on its way to the cipher: the session that seals it, the
/// step of that session's ratchet, and the content to seal.
pub struct Envelope {
    pub room_id: String,
    pub session_id: u64,
    pub message_index: u64,
    pub content: String,
}

/// The rooms of `sessions`.
pub open spec fn rooms(sessions: Seq<OutboundView>) -> Seq<Seq<char>> {
    sessions.map_values(|s: OutboundView| s.room)
}

/// Where the outbound session of `room` stands, if the room has one.
pub open spec fn place_of_room(sessions: Seq<OutboundView>, room: Seq<char>) -> Option<int> {
    rooms(sessions).index_of_first(room)
}

/// Whether a session may carry no further message: a rotation was asked for,
/// or it has carried `limit` messages.
pub open spec fn worn_out(s: OutboundView, limit: u64) -> bool {
    s.rotate || s.message_count >= limit
}

/// Whether the key of `room` has to be shared before the next message: the
/// room has no outbound session, or the one it has is worn out.
pub open spec fn share_due(sessions: Seq<OutboundView>, limit: u64, room: Seq<char>) -> bool {
    match place_of_room(sessions, room) {
        None => true,
        Some(i) => worn_out(sessions[i], limit),
    }
}

/// The session that a rotation at time `now` puts in place.
pub open spec fn fresh_session(
    room: Seq<char>,
    targets: Seq<(Seq<char>, Seq<char>)>,
    number: u64,
    now: u64,
) -> OutboundView {
    OutboundView {
        room,
        session_id: number,
        message_count: 0,
        created_at: now,
        shared_with: targets,
        rotate: false,
    }
}

/// The outbound sessions after the key of `room` has been shared with
/// `targets` at time `now`: a room without a session gets a fresh one with the number
/// `number`; a worn-out session is replaced by such a fresh one; a session in
/// use stays, and `targets` join those that have its key.
pub open spec fn after_share(
    sessions: Seq<OutboundView>,
    limit: u64,
    room: Seq<char>,
    targets: Seq<(Seq<char>, Seq<char>)>,
    number: u64,
    now: u64,
) -> Seq<OutboundView> {
    match place_of_room(sessions, room) {
        None => sessions.push(fresh_session(room, targets, number, now)),
        Some(i) => if worn_out(sessions[i], limit) {
            sessions.update(i, fresh_session(room, targets, number, now))
        } else {
            sessions.update(
                i,
                OutboundView { shared_with: sessions[i].shared_with + targets, ..sessions[i] },
            )
        },
    }
}

/// The outbound sessions after a rotation of `room` was asked for.
pub open spec fn after_invalidate(sessions: Seq<OutboundView>, room: Seq<char>) -> Seq<
    OutboundView,
> {
    match place_of_room(sessions, room) {
        None => sessions,
        Some(i) => sessions.update(i, OutboundView { rotate: true, ..sessions[i] }),
    }
}

/// Whether the key of `s` went to a device of `user`.
pub open spec fn shared_with_user(s: OutboundView, user: Seq<char>) -> bool {
    exists|j: int| 0 <= j < s.shared_with.len() && s.shared_with[j].0 == user
}

/// The outbound sessions after the devices of `user` changed, by a new device
/// or by a loss of trust: every session whose key went to a device of `user`
/// carries no further message, so that the next share rotates it.
pub open spec fn after_user_change(sessions: Seq<OutboundView>, user: Seq<char>) -> Seq<
    OutboundView,
> {
    Seq::new(
        sessions.len(),
        |i: int|
            if shared_with_user(sessions[i], user) {
                OutboundView { rotate: true, ..sessions[i] }
            } else {
                sessions[i]
            },
    )
}

/// Whether `list` names a device of `user`.
pub fn names_user(list: &Vec<DeviceRef>, user: &String) -> (b: bool)
    ensures
        b == exists|j: int| 0 <= j < refs(list@).len() && refs(list@)[j].0 == user@,
{
    let mut i: usize = 0;
    while i < list.len()
        invariant
            i <= list.len(),
            refs(list@).len() == list@.len(),
            forall|j: int| 0 <= j < i ==> refs(list@)[j].0 != user@,
        decreases list.len() - i,
    {
        assert(refs(list@)[i as int] == list@[i as int]@);
        if list[i].user_id == *user {
            return true;
        }
        i += 1;
    }
    false
}

/// Whether a message can be sealed for `room`: the room has an outbound
/// session that is not worn out.
pub open spec fn can_seal(sessions: Seq<OutboundView>, limit: u64, room: Seq<char>) -> bool {
    !share_due(sessions, limit, room)
}

/// The outbound sessions after one message was sealed for `room`.
pub open spec fn after_seal(sessions: Seq<OutboundView>, limit: u64, room: Seq<char>) -> Seq<
    OutboundView,
> {
    if can_seal(sessions, limit, room) {
        let i = place_of_room(sessions, room)->0;
        sessions.update(
            i,
            OutboundView { message_count: (sessions[i].message_count + 1) as u64, ..sessions[i] },
        )
    } else {
        sessions
    }
}

/// How a message sealed under the session `number` of `room` is settled,
/// given what the cipher made of it: where no inbound session is known under
/// that room and number the session is missing, whatever the cipher said;
/// where the cipher rejected the message (`None`) that is a cryptographic
/// failure; else the content that the cipher recovered is handed on.
pub open spec fn open_outcome(
    inbound: Seq<(Seq<char>, u64)>,
    room: Seq<char>,
    number: u64,
    opened: Option<String>,
) -> Result<String, EngineError> {
    if !inbound.contains((room, number)) {
        Err(EngineError::MissingSession)
    } else {
        match opened {
            Some(content) => Ok(content),
            None => Err(EngineError::CryptographicFailure),
        }
    }
}

/// With the room key at hand, content comes back as the cipher recovered it:
/// a message that was sealed under a session whose key has arrived, and that
/// the cipher opens to `content`, is settled as exactly `content`. That the
/// cipher opens a message to what was sealed is the cipher's own promise.
pub proof fn lemma_opened_content_is_handed_on(
    inbound: Seq<(Seq<char>, u64)>,
    room: Seq<char>,
    number: u64,
    content: String,
)
    requires
        inbound.contains((room, number)),
    ensures
        open_outcome(inbound, room, number, Some(content)) == Ok::<String, EngineError>(content),
{
}

/// No room has two outbound sessions, and every session number lies below
/// `next`.
pub open spec fn one_per_room(sessions: Seq<OutboundView>, next: u64) -> bool {
    &&& rooms(sessions).no_duplicates()
    &&& forall|i: int| 0 <= i < sessions.len() ==> sessions[i].session_id < next
}

/// Sharing keeps one outbound session per room, and a rotation gives the room
/// a session number above the one it had: the numbers of a room's sessions
/// grow strictly over its history.
pub proof fn lemma_share_keeps_one_per_room(
    sessions: Seq<OutboundView>,
    limit: u64,
    room: Seq<char>,
    targets: Seq<(Seq<char>, Seq<char>)>,
    next: u64,
    now: u64,
)
    requires
        one_per_room(sessions, next),
        next < u64::MAX,
    ensures
        one_per_room(after_share(sessions, limit, room, targets, next, now), (next + 1) as u64),
        rooms(after_share(sessions, limit, room, targets, next, now)) == if place_of_room(
            sessions,
            room,
        ) is None {
            rooms(sessions).push(room)
        } else {
            rooms(sessions)
        },
        !share_due(after_share(sessions, limit, room, targets, next, now), limit, room) || limit == 0,
        match place_of_room(sessions, room) {
            Some(i) => worn_out(sessions[i], limit) ==> after_share(
                sessions,
                limit,
                room,
                targets,
                next,
                now,
            )[i].session_id > sessions[i].session_id,
            None => true,
        },
{
    let after = after_share(sessions, limit, room, targets, next, now);
    rooms(sessions).index_of_first_ensures(room);
    match place_of_room(sessions, room) {
        None => {
            assert(rooms(after) =~= rooms(sessions).push(room));
            rooms(after).index_of_first_ensures(room);
            assert(rooms(after)[sessions.len() as int] == room);
            assert(rooms(after).contains(room));
            let k = rooms(after).index_of_first(room)->0;
            if k < sessions.len() {
                assert(rooms(sessions)[k] == room);
                assert(rooms(sessions).contains(room));
            }
            assert(k == sessions.len());
        },
        Some(i) => {
            assert(rooms(after) =~= rooms(sessions));
        },
    }
}

/// The outbound sessions of a list as plain values.
pub open spec fn outbound_views(list: Seq<OutboundGroupSession>) -> Seq<OutboundView> {
    list.map_values(|s: OutboundGroupSession| s@)
}

/// The rooms and numbers of a list of inbound sessions.
pub open spec fn inbound_keys(list: Seq<InboundGroupSession>) -> Seq<(Seq<char>, u64)> {
    list.map_values(|s: InboundGroupSession| s.key())
}

/// Whether no room has two sessions in `list` and every session number lies
/// below `next`.
pub fn sessions_in_order(list: &Vec<OutboundGroupSession>, next: u64) -> (b: bool)
    ensures
        b == one_per_room(outbound_views(list@), next),
{
    let ghost v = outbound_views(list@);
    let ghost t = rooms(v);
    let mut i: usize = 0;
    while i < list.len()
        invariant
            i <= list.len(),
            v == outbound_views(list@),
            t == rooms(v),
            t.len() == list@.len(),
            v.len() == list@.len(),
            forall|a: int, b: int| 0 <= a < b < i ==> t[a] != t[b],
            forall|a: int| 0 <= a < i ==> v[a].session_id < next,
        decreases list.len() - i,
    {
        assert(v[i as int] == list@[i as int]@);
        assert(t[i as int] == list@[i as int].room_id@);
        if list[i].session_id >= next {
            return false;
        }
        let mut j: usize = 0;
        while j < i
            invariant
                j <= i < list.len(),
                v == outbound_views(list@),
                t == rooms(v),
                t.len() == list@.len(),
                forall|a: int| 0 <= a < j ==> t[a] != t[i as int],
            decreases i - j,
        {
            assert(t[j as int] == v[j as int].room && v[j as int] == list@[j as int]@);
            assert(t[i as int] == v[i as int].room && v[i as int] == list@[i as int]@);
            if list[j].room_id == list[i].room_id {
                return false;
            }
            j += 1;
        }
        i += 1;
    }
    true
}

/// The group sessions of all rooms: one outbound session per room at most,
/// and the inbound sessions that room keys have brought.
pub struct GroupRegistry {
    pub(crate) outbound: Vec<OutboundGroupSession>,
    pub(crate) inbound: Vec<InboundGroupSession>,
    pub(crate) next_session: u64,
    pub(crate) limit: u64,
}

impl GroupRegistry {
    /// The outbound sessions, in the order in which their rooms first got one.
    pub closed spec fn outbound(&self) -> Seq<OutboundView> {
        outbound_views(self.outbound@)
    }

    /// The rooms and numbers of the inbound sessions, in order of arrival.
    pub closed spec fn inbound(&self) -> Seq<(Seq<char>, u64)> {
        inbound_keys(self.inbound@)
    }

    /// The number that the next outbound session will get.
    pub closed spec fn next_session(&self) -> u64 {
        self.next_session
    }

    /// How many messages one outbound session may carry.
    pub closed spec fn limit(&self) -> u64 {
        self.limit
    }

    /// No room has two outbound sessions, and the session numbers lie below
    /// the next fresh one.
    pub open spec fn wf(&self) -> bool {
        one_per_room(self.outbound(), self.next_session())
    }

    /// A registry without sessions, whose outbound sessions carry `limit`
    /// messages each.
    pub fn new(limit: u64) -> (g: GroupRegistry)
        ensures
            g.wf(),
            g.outbound() == Seq::<OutboundView>::empty(),
            g.inbound() == Seq::<(Seq<char>, u64)>::empty(),
            g.next_session() == 0,
            g.limit() == limit,
    {
        let g = GroupRegistry { outbound: Vec::new(), inbound: Vec::new(), next_session: 0, limit };
        assert(g.outbound() =~= Seq::<OutboundView>::empty());
        assert(g.inbound() =~= Seq::<(Seq<char>, u64)>::empty());
        g
    }

    /// A registry of the given sessions, refused where a room has two
    /// outbound sessions or a session number does not lie below
    /// `next_session`.
    pub fn from_parts(
        outbound: Vec<OutboundGroupSession>,
        inbound: Vec<InboundGroupSession>,
        next_session: u64,
        limit: u64,
    ) -> (r: Option<GroupRegistry>)
        ensures
            r is Some <==> one_per_room(outbound_views(outbound@), next_session),
            r is Some ==> {
                &&& r->0.wf()
                &&& r->0.outbound() == outbound_views(outbound@)
                &&& r->0.inbound() == inbound_keys(inbound@)
                &&& r->0.next_session() == next_session
                &&& r->0.limit() == limit
            },
    {
        if !sessions_in_order(&outbound, next_session) {
            return None;
        }
        Some(GroupRegistry { outbound, inbound, next_session, limit })
    }

    /// The outbound sessions, the inbound sessions, the next session number
    /// and the number of messages that a session may carry.
    pub fn into_parts(self) -> (parts: (
        Vec<OutboundGroupSession>,
        Vec<InboundGroupSession>,
        u64,
        u64,
    ))
        ensures
            outbound_views(parts.0@) == self.outbound(),
            inbound_keys(parts.1@) == self.inbound(),
            parts.2 == self.next_session(),
            parts.3 == self.limit(),
    {
        (self.outbound, self.inbound, self.next_session, self.limit)
    }

    /// The number that the next outbound session will get.
    pub fn upcoming_session(&self) -> (number: u64)
        ensures
            number == self.next_session(),
    {
        self.next_session
    }

    /// The place of the outbound session of `room`.
    pub fn find_room(&self, room: &String) -> (at: Option<usize>)
        ensures
            match at {
                Some(i) => place_of_room(self.outbound(), room@) == Some(i as int) && i
                    < self.outbound().len(),
                None => place_of_room(self.outbound(), room@) is None,
            },
    {
        proof {
            rooms(self.outbound()).index_of_first_ensures(room@);
        }
        let ghost names = rooms(self.outbound());
        let mut i: usize = 0;
        while i < self.outbound.len()
            invariant
                i <= self.outbound.len(),
                names == rooms(self.outbound()),
                names.len() == self.outbound@.len(),
                forall|j: int| 0 <= j < i ==> names[j] != room@,
                match names.index_of_first(room@) {
                    Some(k) => 0 <= k < names.len() && names[k] == room@ && forall|j: int|
                        0 <= j < k ==> names[j] != room@,
                    None => !names.contains(room@),
                },
            decreases self.outbound.len() - i,
        {
            assert(names[i as int] == self.outbound@[i as int].room_id@);
            if self.outbound[i].room_id == *room {
                assert(names.contains(room@));
                return Some(i);
            }
            i += 1;
        }
        proof {
            if let Some(k) = names.index_of_first(room@) {
                assert(names[k] == room@);
            }
        }
        None
    }

    /// Whether the key of `room` has to be shared before the next message.
    pub fn should_share_group_session(&self, room: &String) -> (due: bool)
        ensures
            due == share_due(self.outbound(), self.limit(), room@),
    {
        match self.find_room(room) {
            None => true,
            Some(i) => {
                assert(self.outbound()[i as int] == self.outbound@[i as int]@);
                self.outbound[i].rotate || self.outbound[i].message_count >= self.limit
            },
        }
    }

    /// Shares the key of `room` with `targets` at time `now` and returns the number of the
    /// session whose key went out. A room without a session gets one, a
    /// worn-out session is replaced by one with a higher number, and a
    /// session in use is kept.
    pub fn share(&mut self, room: &String, targets: Vec<DeviceRef>, now: u64) -> (number: u64)
        requires
            old(self).wf(),
            old(self).next_session() < u64::MAX,
        ensures
            final(self).wf(),
            final(self).limit() == old(self).limit(),
            final(self).inbound() == old(self).inbound(),
            final(self).outbound() == after_share(
                old(self).outbound(),
                old(self).limit(),
                room@,
                refs(targets@),
                old(self).next_session(),
                now,
            ),
            share_due(old(self).outbound(), old(self).limit(), room@) ==> {
                &&& number == old(self).next_session()
                &&& final(self).next_session() == number + 1
            },
            !share_due(old(self).outbound(), old(self).limit(), room@) ==> {
                &&& final(self).next_session() == old(self).next_session()
                &&& number == old(self).outbound()[place_of_room(
                    old(self).outbound(),
                    room@,
                )->0].session_id
            },
    {
        let ghost before = self.outbound();
        let ghost goal = after_share(
            before,
            self.limit,
            room@,
            refs(targets@),
            self.next_session,
            now,
        );
        proof {
            lemma_share_keeps_one_per_room(
                before,
                self.limit,
                room@,
                refs(targets@),
                self.next_session,
                now,
            );
        }
        let at = self.find_room(room);
        let fresh: u64 = self.next_session;
        match at {
            None => {
                self.outbound.push(
                    OutboundGroupSession {
                        room_id: room.clone(),
                        session_id: fresh,
                        message_count: 0,
                        created_at: now,
                        shared_with: targets,
                        rotate: false,
                    },
                );
                self.next_session = fresh + 1;
                assert(self.outbound() =~= goal);
                fresh
            },
            Some(i) => {
                assert(before[i as int] == self.outbound@[i as int]@);
                proof {
                    rooms(before).index_of_first_ensures(room@);
                    assert(rooms(before)[i as int] == before[i as int].room);
                }
                let known = self.outbound.remove(i);
                if known.rotate || known.message_count >= self.limit {
                    self.outbound.insert(
                        i,
                        OutboundGroupSession {
                            room_id: known.room_id,
                            session_id: fresh,
                            message_count: 0,
                            created_at: now,
                            shared_with: targets,
                            rotate: false,
                        },
                    );
                    self.next_session = fresh + 1;
                    assert(self.outbound() =~= goal);
                    fresh
                } else {
                    let number: u64 = known.session_id;
                    let mut all = known.shared_with;
                    let mut more = targets;
                    all.append(&mut more);
                    assert(refs(all@) =~= before[i as int].shared_with + refs(targets@));
                    self.outbound.insert(
                        i,
                        OutboundGroupSession {
                            room_id: known.room_id,
                            session_id: number,
                            message_count: known.message_count,
                            created_at: known.created_at,
                            shared_with: all,
                            rotate: false,
                        },
                    );
                    assert(self.outbound() =~= goal);
                    assert forall|j: int| 0 <= j < goal.len() implies goal[j].session_id
                        < self.next_session by {
                        assert(goal[j].session_id == before[j].session_id);
                    }
                    number
                }
            },
        }
    }

    /// Asks for a rotation of the outbound session of `room`, as a change of
    /// membership or trust calls for: the session carries no further message.
    /// A room without a session changes nothing.
    pub fn invalidate(&mut self, room: &String)
        requires
            old(self).wf(),
        ensures
            final(self).wf(),
            final(self).limit() == old(self).limit(),
            final(self).inbound() == old(self).inbound(),
            final(self).next_session() == old(self).next_session(),
            final(self).outbound() == after_invalidate(old(self).outbound(), room@),
    {
        let ghost before = self.outbound();
        match self.find_room(room) {
            None => {},
            Some(i) => {
                assert(before[i as int] == self.outbound@[i as int]@);
                let mut known = self.outbound.remove(i);
                known.rotate = true;
                self.outbound.insert(i, known);
                assert(self.outbound() =~= after_invalidate(before, room@));
                assert(rooms(self.outbound()) =~= rooms(before));
            },
        }
    }

    /// Notes that the devices of `user` have changed, by a new device or by a
    /// loss of trust: every outbound session whose key went to a device of
    /// `user` is marked for rotation.
    pub fn invalidate_for_user(&mut self, user: &String)
        requires
            old(self).wf(),
        ensures
            final(self).wf(),
            final(self).limit() == old(self).limit(),
            final(self).inbound() == old(self).inbound(),
            final(self).next_session() == old(self).next_session(),
            final(self).outbound() == after_user_change(old(self).outbound(), user@),
    {
        let ghost before = self.outbound();
        let ghost goal = after_user_change(before, user@);
        let mut i: usize = 0;
        while i < self.outbound.len()
            invariant
                i <= self.outbound.len(),
                before == old(self).outbound(),
                goal == after_user_change(before, user@),
                self.limit == old(self).limit,
                self.next_session == old(self).next_session,
                self.inbound == old(self).inbound,
                old(self).wf(),
                self.outbound().len() == before.len(),
                self.outbound@.len() == before.len(),
                forall|j: int| 0 <= j < i ==> self.outbound()[j] == goal[j],
                forall|j: int| i <= j < before.len() ==> self.outbound()[j] == before[j],
            decreases self.outbound.len() - i,
        {
            assert(self.outbound()[i as int] == self.outbound@[i as int]@);
            let ghost now = self.outbound();
            if names_user(&self.outbound[i].shared_with, user) {
                let mut known = self.outbound.remove(i);
                known.rotate = true;
                self.outbound.insert(i, known);
                assert(self.outbound() =~= now.update(
                    i as int,
                    OutboundView { rotate: true, ..now[i as int] },
                ));
            }
            i += 1;
        }
        assert(self.outbound() =~= goal);
        assert(rooms(goal) =~= rooms(before));
        assert forall|j: int| 0 <= j < goal.len() implies goal[j].session_id
            < self.next_session by {
            assert(goal[j].session_id == before[j].session_id);
        }
    }

    /// Takes the next step of the outbound session of `room` for the message
    /// `content` and returns the order for the cipher to seal it. Where the room
    /// has no session that may carry a message the session is missing, and
    /// nothing changes.
    pub fn seal(&mut self, room: &String, content: String) -> (r: Result<Envelope, EngineError>)
        requires
            old(self).wf(),
        ensures
            final(self).wf(),
            final(self).limit() == old(self).limit(),
            final(self).inbound() == old(self).inbound(),
            final(self).next_session() == old(self).next_session(),
            final(self).outbound() == after_seal(old(self).outbound(), old(self).limit(), room@),
            match r {
                Ok(header) => {
                    &&& can_seal(old(self).outbound(), old(self).limit(), room@)
                    &&& header.room_id@ == room@
                    &&& header.content == content
                    &&& header.session_id == old(self).outbound()[place_of_room(
                        old(self).outbound(),
                        room@,
                    )->0].session_id
                    &&& header.message_index == old(self).outbound()[place_of_room(
                        old(self).outbound(),
                        room@,
                    )->0].message_count
                },
                Err(e) => e == EngineError::MissingSession && !can_seal(
                    old(self).outbound(),
                    old(self).limit(),
                    room@,
                ),
            },
    {
        let ghost before = self.outbound();
        match self.find_room(room) {
            None => Err(EngineError::MissingSession),
            Some(i) => {
                assert(before[i as int] == self.outbound@[i as int]@);
                if self.outbound[i].rotate || self.outbound[i].message_count >= self.limit {
                    return Err(EngineError::MissingSession);
                }
                let mut known = self.outbound.remove(i);
                let header = Envelope {
                    room_id: room.clone(),
                    session_id: known.session_id,
                    message_index: known.message_count,
                    content,
                };
                known.message_count = known.message_count + 1;
                self.outbound.insert(i, known);
                assert(self.outbound() =~= after_seal(before, self.limit, room@));
                assert(rooms(self.outbound()) =~= rooms(before));
                assert forall|j: int| 0 <= j < self.outbound().len() implies self.outbound()[j].session_id
                    < self.next_session by {
                    assert(self.outbound()[j].session_id == before[j].session_id);
                }
                Ok(header)
            },
        }
    }

    /// The place of the inbound session `session_id` of `room`.
    pub fn find_inbound(&self, room: &String, session_id: u64) -> (at: Option<usize>)
        ensures
            at is Some <==> self.inbound().contains((room@, session_id)),
            at is Some ==> at->0 < self.inbound().len() && self.inbound()[at->0 as int] == (
                room@,
                session_id,
            ),
    {
        let mut i: usize = 0;
        while i < self.inbound.len()
            invariant
                i <= self.inbound.len(),
                self.inbound().len() == self.inbound@.len(),
                forall|j: int| 0 <= j < i ==> self.inbound()[j] != (room@, session_id),
            decreases self.inbound.len() - i,
        {
            assert(self.inbound()[i as int] == self.inbound@[i as int].key());
            if self.inbound[i].session_id == session_id && self.inbound[i].room_id == *room {
                return Some(i);
            }
            i += 1;
        }
        None
    }

    /// Takes in a room key that a sender has delivered. The first session
    /// under a room and number stays; the result says whether this one was
    /// taken in.
    pub fn add_inbound(&mut self, room: String, session_id: u64, sender_key: String) -> (added:
        bool)
        requires
            old(self).wf(),
        ensures
            final(self).wf(),
            final(self).limit() == old(self).limit(),
            final(self).outbound() == old(self).outbound(),
            final(self).next_session() == old(self).next_session(),
            added == !old(self).inbound().contains((room@, session_id)),
            final(self).inbound() == if added {
                old(self).inbound().push((room@, session_id))
            } else {
                old(self).inbound()
            },
    {
        if self.find_inbound(&room, session_id).is_some() {
            false
        } else {
            let ghost before = self.inbound();
            self.inbound.push(InboundGroupSession { room_id: room, session_id, sender_key });
            assert(self.inbound() =~= before.push((room@, session_id)));
            true
        }
    }

    /// Settles what the cipher made of a message sealed under `session_id` in
    /// `room`: where no such inbound session is known the session is missing,
    /// whatever the cipher said; where the cipher rejected the message that is
    /// a cryptographic failure; else the opened content is handed on.
    pub fn open(&self, room: &String, session_id: u64, opened: Option<String>) -> (r: Result<
        String,
        EngineError,
    >)
        ensures
            r == open_outcome(self.inbound(), room@, session_id, opened),
    {
        if self.find_inbound(room, session_id).is_none() {
            return Err(EngineError::MissingSession);
        }
        match opened {
            Some(content) => Ok(content),
            None => Err(EngineError::CryptographicFailure),
        }
    }
}

} // verus!
