use vstd::prelude::*;
use crate::devices::{
    after_coverage, after_handshake, after_report, place_of_device, reported_keys, DeviceKeys,
    DeviceRecord,
};
use crate::engine::Engine;
use crate::error::EngineError;
use crate::groups::{after_user_change, OutboundView};
use crate::ids::texts;
use crate::ledger::{after_claim, claimable};
use crate::requests::{
    ack_outcome, after_ack, lemma_second_ack_unknown, DeviceRef, RequestKind,
};

verus! {

/// What a key claim brought for one device: a one-time key, or nothing where
/// the device had none left.
pub struct ClaimedKey {
    pub user_id: String,
    pub device_id: String,
    pub one_time_key: Option<String>,
}

/// A server's answer to a request, once the host has read it.
pub enum Response {
    /// The upload was accepted.
    KeysUpload,
    /// The users that the answer covers, and the devices it reports.
    KeysQuery { users: Vec<String>, devices: Vec<DeviceKeys> },
    /// What was claimed for each device, and the time of the handshakes.
    KeysClaim { claims: Vec<ClaimedKey>, now: u64 },
    /// The to-device messages were delivered.
    ToDevice,
}

impl Response {
    /// The kind of request that this answers.
    pub open spec fn kind_of(&self) -> RequestKind {
        match self {
            Response::KeysUpload => RequestKind::UploadKeys,
            Response::KeysQuery { .. } => RequestKind::QueryKeys,
            Response::KeysClaim { .. } => RequestKind::ClaimKeys,
            Response::ToDevice => RequestKind::ToDevice,
        }
    }

    /// The kind of request that this answers.
    pub fn kind(&self) -> (k: RequestKind)
        ensures
            k == self.kind_of(),
    {
        match self {
            Response::KeysUpload => RequestKind::UploadKeys,
            Response::KeysQuery { .. } => RequestKind::QueryKeys,
            Response::KeysClaim { .. } => RequestKind::ClaimKeys,
            Response::ToDevice => RequestKind::ToDevice,
        }
    }
}

/// The records after a key query has reported the devices `found`, one after
/// the other.
pub open spec fn after_reports(records: Seq<DeviceRecord>, found: Seq<DeviceKeys>) -> Seq<
    DeviceRecord,
>
    decreases found.len(),
{
    if found.len() == 0 {
        records
    } else {
        after_report(after_reports(records, found.drop_last()), found.last())
    }
}

/// The outbound sessions after a key query has reported the devices `found`,
/// one after the other, to a catalog that held `records`: each device that
/// was not known when its turn came marks for rotation the sessions whose
/// key went to a device of its user, since the new device lacks that key.
pub open spec fn sessions_after_reports(
    sessions: Seq<OutboundView>,
    records: Seq<DeviceRecord>,
    found: Seq<DeviceKeys>,
) -> Seq<OutboundView>
    decreases found.len(),
{
    if found.len() == 0 {
        sessions
    } else {
        let before = sessions_after_reports(sessions, records, found.drop_last());
        let seen = after_reports(records, found.drop_last());
        let d = found.last();
        if place_of_device(seen, (d.user_id@, d.device_id@)) is None {
            after_user_change(before, d.user_id@)
        } else {
            before
        }
    }
}

/// The records after one claim: a handshake where a key came, nothing where
/// none did.
pub open spec fn after_one_claim(records: Seq<DeviceRecord>, claim: ClaimedKey, now: u64) -> Seq<
    DeviceRecord,
> {
    if claim.one_time_key is Some {
        after_handshake(records, (claim.user_id@, claim.device_id@), now)
    } else {
        records
    }
}

/// The records after the claims `claims`, one after the other.
pub open spec fn after_claims(records: Seq<DeviceRecord>, claims: Seq<ClaimedKey>, now: u64) -> Seq<
    DeviceRecord,
>
    decreases claims.len(),
{
    if claims.len() == 0 {
        records
    } else {
        after_one_claim(after_claims(records, claims.drop_last(), now), claims.last(), now)
    }
}

/// Whether the claim at place `i` of `claims` made a session: a key came for
/// a known device that had no session when its turn came.
pub open spec fn claim_made_session(
    records: Seq<DeviceRecord>,
    claims: Seq<ClaimedKey>,
    now: u64,
    i: int,
) -> bool {
    after_claims(records, claims.take(i + 1), now) != after_claims(records, claims.take(i), now)
}

/// Whether `post` is `pre` but for the request queue.
pub open spec fn same_tables(pre: Engine, post: Engine) -> bool {
    &&& post.user_id == pre.user_id
    &&& post.device_id == pre.device_id
    &&& post.tracker == pre.tracker
    &&& post.devices == pre.devices
    &&& post.ledger == pre.ledger
    &&& post.groups == pre.groups
}

/// Whether `post` has the request queue of `pre`.
pub open spec fn same_queue(pre: Engine, post: Engine) -> bool {
    &&& post.queue.entries() == pre.queue.entries()
    &&& post.queue.next_id() == pre.queue.next_id()
}

/// What an accepted key upload does to the tables: every generated key is
/// published, and so are the identity keys.
pub open spec fn upload_applied(pre: Engine, post: Engine) -> bool {
    &&& post.user_id == pre.user_id
    &&& post.device_id == pre.device_id
    &&& post.tracker == pre.tracker
    &&& post.devices == pre.devices
    &&& post.groups == pre.groups
    &&& post.ledger.keys() == pre.ledger.keys()
    &&& post.ledger.published() == pre.ledger.keys().len()
    &&& post.ledger.identity_uploaded()
    &&& !post.ledger.in_flight()
    &&& post.ledger.low_water() == pre.ledger.low_water()
}

/// What the answer to a key query does to the tables: the reported devices
/// are taken in, the devices of a covered user that the answer leaves out are
/// stale from now on, the sessions that a new device puts out of date are marked
/// for rotation, and the users that the answer covers no longer wait for a
/// query. A user that the answer does not cover goes on waiting.
pub open spec fn query_applied(
    pre: Engine,
    post: Engine,
    users: Seq<String>,
    devices: Seq<DeviceKeys>,
) -> bool {
    &&& post.user_id == pre.user_id
    &&& post.device_id == pre.device_id
    &&& post.ledger == pre.ledger
    &&& post.groups.limit() == pre.groups.limit()
    &&& post.groups.inbound() == pre.groups.inbound()
    &&& post.groups.next_session() == pre.groups.next_session()
    &&& post.groups.outbound() == sessions_after_reports(
        pre.groups.outbound(),
        pre.devices.records(),
        devices,
    )
    &&& post.devices.records() == after_coverage(
        after_reports(pre.devices.records(), devices),
        texts(users),
        reported_keys(devices),
    )
    &&& post.tracker.watched() == pre.tracker.watched()
    &&& post.tracker.needing_query() == pre.tracker.needing_query().difference(
        texts(users).to_set(),
    )
}

/// What the answer to a key claim does to the tables: each device for which
/// a key came and that had no session gets one.
pub open spec fn claims_applied(pre: Engine, post: Engine, claims: Seq<ClaimedKey>, now: u64) -> bool {
    &&& post.user_id == pre.user_id
    &&& post.device_id == pre.device_id
    &&& post.tracker == pre.tracker
    &&& post.ledger == pre.ledger
    &&& post.groups == pre.groups
    &&& post.devices.records() == after_claims(pre.devices.records(), claims, now)
}

/// What an answer does to the tables, by its kind.
pub open spec fn response_applied(pre: Engine, post: Engine, body: Response) -> bool {
    match body {
        Response::KeysUpload => upload_applied(pre, post),
        Response::KeysQuery { users, devices } => query_applied(pre, post, users@, devices@),
        Response::KeysClaim { claims, now } => claims_applied(pre, post, claims@, now),
        Response::ToDevice => same_tables(pre, post),
    }
}

/// What an accepted answer reports back: for a key claim, whether each
/// claim made a session, in order; nothing for the other kinds.
pub open spec fn claim_report(pre: Engine, body: Response) -> Seq<bool> {
    match body {
        Response::KeysClaim { claims, now } => Seq::new(
            claims@.len(),
            |i: int| claim_made_session(pre.devices.records(), claims@, now, i),
        ),
        _ => Seq::empty(),
    }
}

/// How an acknowledgment is answered: an identifier that is not pending is
/// an unknown request; a pending request of another kind, a body that could
/// not be read (`None`) and a body of another kind are malformed responses.
pub open spec fn mark_outcome(
    pre: Engine,
    id: u64,
    kind: RequestKind,
    body: Option<Response>,
) -> Result<(), EngineError> {
    match ack_outcome(pre.queue.entries(), id, kind) {
        Err(e) => Err(e),
        Ok(_) => match body {
            Some(b) if b.kind_of() == kind => Ok(()),
            _ => Err(EngineError::MalformedResponse),
        },
    }
}

/// An acknowledgment is accepted once: after an accepted acknowledgment of
/// `id`, any further acknowledgment of `id` is an unknown request, whatever
/// kind and body come with it.
pub proof fn lemma_acknowledged_once(
    pre: Engine,
    post: Engine,
    id: u64,
    kind: RequestKind,
    body: Option<Response>,
    again_kind: RequestKind,
    again_body: Option<Response>,
)
    requires
        pre.queue.wf(),
        mark_outcome(pre, id, kind, body) is Ok,
        post.queue.entries() == after_ack(pre.queue.entries(), id, kind),
    ensures
        mark_outcome(post, id, again_kind, again_body) == Err::<(), EngineError>(
            EngineError::UnknownRequest,
        ),
{
    lemma_second_ack_unknown(pre.queue.entries(), pre.queue.next_id(), id, kind, again_kind);
}

impl Engine {
    /// The server has accepted the key upload in flight.
    pub fn receive_keys_upload_response(&mut self)
        requires
            old(self).wf(),
        ensures
            final(self).wf(),
            upload_applied(*old(self), *final(self)),
            same_queue(*old(self), *final(self)),
    {
        self.ledger.confirm_upload();
    }

    /// Takes in the answer to a key query: the devices that it reports, and
    /// the users that it covers. A device that was not known before puts the
    /// outbound sessions out of date whose key went to its user's devices.
    pub fn receive_keys_query_response(&mut self, users: &Vec<String>, devices: &Vec<DeviceKeys>)
        requires
            old(self).wf(),
        ensures
            final(self).wf(),
            query_applied(*old(self), *final(self), users@, devices@),
            same_queue(*old(self), *final(self)),
    {
        let mut i: usize = 0;
        assert(devices@.take(0) =~= Seq::<DeviceKeys>::empty());
        while i < devices.len()
            invariant
                i <= devices.len(),
                self.wf(),
                self.user_id == old(self).user_id,
                self.device_id == old(self).device_id,
                self.tracker == old(self).tracker,
                self.ledger == old(self).ledger,
                self.queue == old(self).queue,
                self.groups.limit() == old(self).groups.limit(),
                self.groups.inbound() == old(self).groups.inbound(),
                self.groups.next_session() == old(self).groups.next_session(),
                self.groups.outbound() == sessions_after_reports(
                    old(self).groups.outbound(),
                    old(self).devices.records(),
                    devices@.take(i as int),
                ),
                self.devices.records() == after_reports(
                    old(self).devices.records(),
                    devices@.take(i as int),
                ),
            decreases devices.len() - i,
        {
            let found = DeviceKeys {
                user_id: devices[i].user_id.clone(),
                device_id: devices[i].device_id.clone(),
                curve25519: devices[i].curve25519.clone(),
                ed25519: devices[i].ed25519.clone(),
            };
            assert(found == devices@[i as int]);
            proof {
                let next = devices@.take(i + 1);
                assert(next.drop_last() =~= devices@.take(i as int));
                assert(next.last() == devices@[i as int]);
            }
            if self.devices.find(&found.user_id, &found.device_id).is_none() {
                self.groups.invalidate_for_user(&found.user_id);
            }
            self.devices.report(found);
            i += 1;
        }
        assert(devices@.take(devices.len() as int) =~= devices@);
        self.devices.mark_unreported(users, devices);
        self.tracker.settle(users);
    }

    /// Takes in the answer to a key claim. Each device for which a key came
    /// gets its session, unless it is unknown or has one already; a device
    /// for which none came is passed over, and the others are not held up by
    /// it. The result says for each claim, in order, whether it made a
    /// session.
    pub fn receive_keys_claim_response(&mut self, claims: &Vec<ClaimedKey>, now: u64) -> (made: Vec<
        bool,
    >)
        requires
            old(self).wf(),
        ensures
            final(self).wf(),
            claims_applied(*old(self), *final(self), claims@, now),
            same_queue(*old(self), *final(self)),
            made@.len() == claims@.len(),
            forall|i: int|
                0 <= i < claims@.len() ==> made@[i] == claim_made_session(
                    old(self).devices.records(),
                    claims@,
                    now,
                    i,
                ),
    {
        let mut made: Vec<bool> = Vec::new();
        let mut i: usize = 0;
        assert(claims@.take(0) =~= Seq::<ClaimedKey>::empty());
        while i < claims.len()
            invariant
                i <= claims.len(),
                self.wf(),
                self.user_id == old(self).user_id,
                self.device_id == old(self).device_id,
                self.tracker == old(self).tracker,
                self.ledger == old(self).ledger,
                self.groups == old(self).groups,
                self.queue == old(self).queue,
                self.devices.records() == after_claims(
                    old(self).devices.records(),
                    claims@.take(i as int),
                    now,
                ),
                made@.len() == i,
                forall|j: int|
                    0 <= j < i ==> made@[j] == claim_made_session(
                        old(self).devices.records(),
                        claims@,
                        now,
                        j,
                    ),
            decreases claims.len() - i,
        {
            proof {
                let next = claims@.take(i + 1);
                assert(next.drop_last() =~= claims@.take(i as int));
                assert(next.last() == claims@[i as int]);
            }
            let done = if claims[i].one_time_key.is_some() {
                self.devices.establish(&claims[i].user_id, &claims[i].device_id, now)
            } else {
                false
            };
            made.push(done);
            i += 1;
        }
        assert(claims@.take(claims.len() as int) =~= claims@);
        made
    }

    /// A peer has opened a channel with the one-time key `key_id`. Where the
    /// peer's device is known and has no session, and the key is published
    /// and free, the key becomes the peer's and the session is recorded, both
    /// or neither. A device that has a session keeps it and the key stays
    /// free. An unknown device and a key that cannot be claimed are
    /// cryptographic failures that change nothing.
    pub fn receive_pre_key_message(&mut self, peer: DeviceRef, key_id: usize, now: u64) -> (r:
        Result<bool, EngineError>)
        requires
            old(self).wf(),
        ensures
            final(self).wf(),
            final(self).user_id == old(self).user_id,
            final(self).device_id == old(self).device_id,
            final(self).tracker == old(self).tracker,
            final(self).groups == old(self).groups,
            final(self).queue == old(self).queue,
            final(self).ledger.published() == old(self).ledger.published(),
            final(self).ledger.identity_uploaded() == old(self).ledger.identity_uploaded(),
            final(self).ledger.in_flight() == old(self).ledger.in_flight(),
            final(self).ledger.low_water() == old(self).ledger.low_water(),
            r == match place_of_device(old(self).devices.records(), peer@) {
                None => Err::<bool, EngineError>(EngineError::CryptographicFailure),
                Some(i) => if old(self).devices.records()[i].session is Some {
                    Ok::<bool, EngineError>(false)
                } else if claimable(
                    old(self).ledger.keys(),
                    old(self).ledger.published(),
                    key_id as int,
                ) {
                    Ok::<bool, EngineError>(true)
                } else {
                    Err::<bool, EngineError>(EngineError::CryptographicFailure)
                },
            },
            r == Ok::<bool, EngineError>(true) ==> {
                &&& final(self).ledger.keys() == after_claim(
                    old(self).ledger.keys(),
                    old(self).ledger.published(),
                    key_id as int,
                    peer,
                )
                &&& final(self).devices.records() == after_handshake(
                    old(self).devices.records(),
                    peer@,
                    now,
                )
            },
            r != Ok::<bool, EngineError>(true) ==> {
                &&& final(self).ledger.keys() == old(self).ledger.keys()
                &&& final(self).devices.records() == old(self).devices.records()
            },
    {
        match self.devices.find(&peer.user_id, &peer.device_id) {
            None => Err(EngineError::CryptographicFailure),
            Some(i) => {
                if self.devices.has_session(i) {
                    return Ok(false);
                }
                let user_id = peer.user_id.clone();
                let device_id = peer.device_id.clone();
                match self.ledger.claim(key_id, peer) {
                    Err(e) => Err(e),
                    Ok(()) => {
                        let made = self.devices.establish(&user_id, &device_id, now);
                        Ok(true)
                    },
                }
            },
        }
    }

    /// The host gives up the pending request `request_id` of kind `kind`
    /// without an answer, as it does before it asks anew under a fresh
    /// identifier. The request leaves the queue and nothing is taken in; with
    /// a key upload, the batch in flight is forgotten. An identifier that is
    /// not pending is an unknown request, and a wrong kind a malformed
    /// response; neither changes anything.
    pub fn drop_request(&mut self, request_id: u64, kind: RequestKind) -> (r: Result<
        (),
        EngineError,
    >)
        requires
            old(self).wf(),
        ensures
            final(self).wf(),
            r == match ack_outcome(old(self).queue.entries(), request_id, kind) {
                Ok(_) => Ok::<(), EngineError>(()),
                Err(e) => Err::<(), EngineError>(e),
            },
            final(self).queue.next_id() == old(self).queue.next_id(),
            final(self).queue.entries() == after_ack(old(self).queue.entries(), request_id, kind),
            final(self).user_id == old(self).user_id,
            final(self).device_id == old(self).device_id,
            final(self).tracker == old(self).tracker,
            final(self).devices == old(self).devices,
            final(self).groups == old(self).groups,
            r is Ok && kind == RequestKind::UploadKeys ==> {
                &&& final(self).ledger.keys() == old(self).ledger.keys().subrange(
                    0,
                    old(self).ledger.published(),
                )
                &&& final(self).ledger.published() == old(self).ledger.published()
                &&& final(self).ledger.identity_uploaded() == old(self).ledger.identity_uploaded()
                &&& !final(self).ledger.in_flight()
                &&& final(self).ledger.low_water() == old(self).ledger.low_water()
            },
            !(r is Ok && kind == RequestKind::UploadKeys) ==> final(self).ledger == old(self).ledger,
    {
        match self.queue.resolve(request_id, kind) {
            Err(e) => Err(e),
            Ok(_) => {
                if kind.same(&RequestKind::UploadKeys) {
                    self.ledger.abandon_upload();
                }
                Ok(())
            },
        }
    }

    /// The host reports the answer to the request `request_id`. This is the
    /// one way in which the answer to a pending request is taken in: where the request is
    /// pending, is of kind `kind`, and `body` is an answer of that kind, the
    /// answer is taken in and the request leaves the queue. Anything else is
    /// an error that changes nothing: an identifier that is not pending,
    /// because it was never given out or is resolved already, is an unknown
    /// request; a wrong kind, or a body that could not be read (`None`), is a
    /// malformed response, and the request stays pending. The result of an
    /// accepted answer to a key claim says for each claim, in order, whether
    /// it made a session; for the other kinds it is empty.
    pub fn mark_request_as_sent(
        &mut self,
        request_id: u64,
        kind: RequestKind,
        body: Option<Response>,
    ) -> (r: Result<Vec<bool>, EngineError>)
        requires
            old(self).wf(),
        ensures
            final(self).wf(),
            match r {
                Ok(made) => {
                    &&& mark_outcome(*old(self), request_id, kind, body) is Ok
                    &&& made@ == claim_report(*old(self), body->0)
                },
                Err(e) => mark_outcome(*old(self), request_id, kind, body) == Err::<(), EngineError>(
                    e,
                ),
            },
            final(self).queue.next_id() == old(self).queue.next_id(),
            r is Err ==> same_tables(*old(self), *final(self)) && same_queue(
                *old(self),
                *final(self),
            ),
            r is Ok ==> final(self).queue.entries() == after_ack(
                old(self).queue.entries(),
                request_id,
                kind,
            ) && response_applied(*old(self), *final(self), body->0),
    {
        let shaped = match &body {
            Some(b) => b.kind().same(&kind),
            None => false,
        };
        if !shaped {
            return if self.queue.is_pending(request_id) {
                Err(EngineError::MalformedResponse)
            } else {
                Err(EngineError::UnknownRequest)
            };
        }
        match self.queue.resolve(request_id, kind) {
            Err(e) => Err(e),
            Ok(_) => {
                match body {
                    Some(Response::KeysUpload) => {
                        self.receive_keys_upload_response();
                        Ok(Vec::new())
                    },
                    Some(Response::KeysQuery { users, devices }) => {
                        self.receive_keys_query_response(&users, &devices);
                        Ok(Vec::new())
                    },
                    Some(Response::KeysClaim { claims, now }) => {
                        let made = self.receive_keys_claim_response(&claims, now);
                        assert(made@ =~= claim_report(*old(self), body->0));
                        Ok(made)
                    },
                    _ => Ok(Vec::new()),
                }
            },
        }
    }
}

} // verus!
