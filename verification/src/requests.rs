use vstd::prelude::*;
use vstd::string::*;
use crate::error::EngineError;

verus! {

/// A device of a user, by the two identifiers that name it.
pub struct DeviceRef {
    pub user_id: String,
    pub device_id: String,
}

impl View for DeviceRef {
    type V = (Seq<char>, Seq<char>);

    open spec fn view(&self) -> (Seq<char>, Seq<char>) {
        (self.user_id@, self.device_id@)
    }
}

/// The kinds of network operation that the engine can ask for.
#[derive(Clone, Copy, Debug, PartialEq, Eq, Structural)]
pub enum RequestKind {
    UploadKeys,
    QueryKeys,
    ClaimKeys,
    ToDevice,
}

impl RequestKind {
    /// The kind that a label names, if it names one.
    pub open spec fn named(label: Seq<char>) -> Option<RequestKind> {
        if label == "keys_upload"@ {
            Some(RequestKind::UploadKeys)
        } else if label == "keys_query"@ {
            Some(RequestKind::QueryKeys)
        } else if label == "keys_claim"@ {
            Some(RequestKind::ClaimKeys)
        } else if label == "to_device"@ {
            Some(RequestKind::ToDevice)
        } else {
            None
        }
    }

    /// The kind that `label` names: `keys_upload`, `keys_query`, `keys_claim`
    /// or `to_device`. Any other label names none.
    pub fn from_label(label: &String) -> (k: Option<RequestKind>)
        ensures
            k == RequestKind::named(label@),
    {
        if *label == "keys_upload".to_owned() {
            Some(RequestKind::UploadKeys)
        } else if *label == "keys_query".to_owned() {
            Some(RequestKind::QueryKeys)
        } else if *label == "keys_claim".to_owned() {
            Some(RequestKind::ClaimKeys)
        } else if *label == "to_device".to_owned() {
            Some(RequestKind::ToDevice)
        } else {
            None
        }
    }

    /// The label under which the host knows this kind.
    pub fn label(&self) -> (l: String)
        ensures
            l@ == match self {
                RequestKind::UploadKeys => "keys_upload"@,
                RequestKind::QueryKeys => "keys_query"@,
                RequestKind::ClaimKeys => "keys_claim"@,
                RequestKind::ToDevice => "to_device"@,
            },
    {
        match self {
            RequestKind::UploadKeys => "keys_upload".to_owned(),
            RequestKind::QueryKeys => "keys_query".to_owned(),
            RequestKind::ClaimKeys => "keys_claim".to_owned(),
            RequestKind::ToDevice => "to_device".to_owned(),
        }
    }

    /// Whether `self` and `other` are the same kind.
    pub fn same(&self, other: &RequestKind) -> (b: bool)
        ensures
            b == (*self == *other),
    {
        match self {
            RequestKind::UploadKeys => matches!(other, RequestKind::UploadKeys),
            RequestKind::QueryKeys => matches!(other, RequestKind::QueryKeys),
            RequestKind::ClaimKeys => matches!(other, RequestKind::ClaimKeys),
            RequestKind::ToDevice => matches!(other, RequestKind::ToDevice),
        }
    }
}

/// Labels and kinds correspond one to one: the label of a kind names that
/// kind again.
pub proof fn lemma_label_names_kind(kind: RequestKind)
    ensures
        RequestKind::named(
            match kind {
                RequestKind::UploadKeys => "keys_upload"@,
                RequestKind::QueryKeys => "keys_query"@,
                RequestKind::ClaimKeys => "keys_claim"@,
                RequestKind::ToDevice => "to_device"@,
            },
        ) == Some(kind),
{
    reveal_strlit("keys_upload");
    reveal_strlit("keys_query");
    reveal_strlit("keys_claim");
    reveal_strlit("to_device");
    assert("keys_upload"@.len() == 11);
    assert("keys_query"@.len() == 10);
    assert("to_device"@.len() == 9);
    assert("keys_query"@[5] == 'q');
    assert("keys_claim"@[5] == 'c');
}

/// What a pending request asks the host to send.
pub enum Payload {
    /// Publish the one-time keys `first_key .. first_key + count`, and the
    /// identity keys too where `with_identity` is set.
    UploadKeys { with_identity: bool, first_key: usize, count: usize },
    /// Fetch the device lists of these users.
    QueryKeys { users: Vec<String> },
    /// Claim one one-time key of each of these devices.
    ClaimKeys { targets: Vec<DeviceRef> },
    /// Deliver the key of a room's outbound session to these devices.
    ToDevice { room_id: String, session_id: u64, targets: Vec<DeviceRef> },
}

impl Payload {
    pub open spec fn kind_of(&self) -> RequestKind {
        match self {
            Payload::UploadKeys { .. } => RequestKind::UploadKeys,
            Payload::QueryKeys { .. } => RequestKind::QueryKeys,
            Payload::ClaimKeys { .. } => RequestKind::ClaimKeys,
            Payload::ToDevice { .. } => RequestKind::ToDevice,
        }
    }

    /// The kind of request that carries this payload.
    pub fn kind(&self) -> (k: RequestKind)
        ensures
            k == self.kind_of(),
    {
        match self {
            Payload::UploadKeys { .. } => RequestKind::UploadKeys,
            Payload::QueryKeys { .. } => RequestKind::QueryKeys,
            Payload::ClaimKeys { .. } => RequestKind::ClaimKeys,
            Payload::ToDevice { .. } => RequestKind::ToDevice,
        }
    }
}

/// A network operation that the engine has decided on and that the host has
/// not yet confirmed.
pub struct PendingRequest {
    pub request_id: u64,
    pub payload: Payload,
}

/// Where the request with identifier `id` stands in `entries`, if it is there.
pub open spec fn place_of(entries: Seq<PendingRequest>, id: u64) -> Option<int> {
    entries.map_values(|r: PendingRequest| r.request_id).index_of_first(id)
}

/// Whether `entries` holds a request with identifier `id`.
pub open spec fn holds(entries: Seq<PendingRequest>, id: u64) -> bool {
    exists|i: int| 0 <= i < entries.len() && entries[i].request_id == id
}

/// The identifiers grow along `entries` and all lie below `next_id`.
pub open spec fn ordered_below(entries: Seq<PendingRequest>, next_id: u64) -> bool {
    &&& forall|i: int, j: int|
        0 <= i < j < entries.len() ==> entries[i].request_id < entries[j].request_id
    &&& forall|i: int| 0 <= i < entries.len() ==> entries[i].request_id < next_id
}

/// What an acknowledgment of `id` as a request of kind `kind` is answered with.
pub open spec fn ack_outcome(entries: Seq<PendingRequest>, id: u64, kind: RequestKind) -> Result<
    int,
    EngineError,
> {
    match place_of(entries, id) {
        None => Err(EngineError::UnknownRequest),
        Some(i) => if entries[i].payload.kind_of() == kind {
            Ok(i)
        } else {
            Err(EngineError::MalformedResponse)
        },
    }
}

/// The entries that are left after an acknowledgment of `id` as a request of
/// kind `kind`: the request leaves where the acknowledgment is accepted, and
/// nothing changes where it is not.
pub open spec fn after_ack(entries: Seq<PendingRequest>, id: u64, kind: RequestKind) -> Seq<
    PendingRequest,
> {
    match ack_outcome(entries, id, kind) {
        Ok(i) => entries.remove(i),
        Err(_) => entries,
    }
}

/// `place_of` finds the one entry with the identifier, and finds nothing
/// exactly where no entry has it.
pub proof fn lemma_place_of(entries: Seq<PendingRequest>, id: u64)
    ensures
        match place_of(entries, id) {
            Some(i) => 0 <= i < entries.len() && entries[i].request_id == id && forall|j: int|
                0 <= j < i ==> entries[j].request_id != id,
            None => !holds(entries, id),
        },
{
    let ids = entries.map_values(|r: PendingRequest| r.request_id);
    ids.index_of_first_ensures(id);
    match ids.index_of_first(id) {
        Some(i) => {
            assert(ids[i] == entries[i].request_id);
            assert forall|j: int| 0 <= j < i implies entries[j].request_id != id by {
                assert(ids[j] == entries[j].request_id);
            }
        },
        None => {
            if holds(entries, id) {
                let i = choose|i: int| 0 <= i < entries.len() && entries[i].request_id == id;
                assert(ids[i] == id);
                assert(ids.contains(id));
            }
        },
    }
}

/// An accepted acknowledgment resolves its request for good: the same
/// identifier, acknowledged again under any kind, is an unknown request.
pub proof fn lemma_second_ack_unknown(
    entries: Seq<PendingRequest>,
    next_id: u64,
    id: u64,
    kind: RequestKind,
    again: RequestKind,
)
    requires
        ordered_below(entries, next_id),
        ack_outcome(entries, id, kind) is Ok,
    ensures
        ack_outcome(after_ack(entries, id, kind), id, again) == Err::<int, EngineError>(
            EngineError::UnknownRequest,
        ),
        ordered_below(after_ack(entries, id, kind), next_id),
{
    lemma_place_of(entries, id);
    let i = place_of(entries, id).unwrap();
    let rest = entries.remove(i);
    assert forall|j: int| 0 <= j < rest.len() implies rest[j].request_id != id by {
        if j < i {
            assert(rest[j] == entries[j]);
        } else {
            assert(rest[j] == entries[j + 1]);
        }
    }
    lemma_place_of(rest, id);
    assert forall|a: int, b: int| 0 <= a < b < rest.len() implies rest[a].request_id
        < rest[b].request_id by {
        let a0 = if a < i { a } else { a + 1 };
        let b0 = if b < i { b } else { b + 1 };
        assert(rest[a] == entries[a0]);
        assert(rest[b] == entries[b0]);
    }
    assert forall|a: int| 0 <= a < rest.len() implies rest[a].request_id < next_id by {
        let a0 = if a < i { a } else { a + 1 };
        assert(rest[a] == entries[a0]);
    }
}

/// An identifier that has been given out is never given out again: a request
/// that is added later gets an identifier that no earlier request had, so an
/// identifier below `next_id` that is not pending stays unknown.
pub proof fn lemma_id_never_reused(
    entries: Seq<PendingRequest>,
    next_id: u64,
    added: PendingRequest,
    id: u64,
)
    requires
        ordered_below(entries, next_id),
        added.request_id == next_id,
        id < next_id,
        !holds(entries, id),
    ensures
        !holds(entries.push(added), id),
{
    let more = entries.push(added);
    if holds(more, id) {
        let i = choose|i: int| 0 <= i < more.len() && more[i].request_id == id;
        if i < entries.len() {
            assert(entries[i].request_id == id);
        }
    }
}

/// Whether the request identifiers grow along `list` and lie below `next`.
pub fn requests_in_order(list: &Vec<PendingRequest>, next: u64) -> (b: bool)
    ensures
        b == ordered_below(list@, next),
{
    let mut i: usize = 0;
    while i < list.len()
        invariant
            i <= list.len(),
            forall|a: int, b: int| 0 <= a < b < i ==> list@[a].request_id < list@[b].request_id,
            forall|a: int| 0 <= a < i ==> list@[a].request_id < next,
        decreases list.len() - i,
    {
        if list[i].request_id >= next {
            return false;
        }
        if i > 0 && list[i - 1].request_id >= list[i].request_id {
            return false;
        }
        assert forall|a: int| 0 <= a < i implies list@[a].request_id < list@[i as int].request_id by {
            if a < i - 1 {
                assert(list@[a].request_id < list@[i - 1].request_id);
            }
        }
        i += 1;
    }
    true
}

/// The requests that await confirmation, oldest first, and the source of
/// fresh request identifiers.
pub struct RequestQueue {
    pub(crate) pending: Vec<PendingRequest>,
    pub(crate) next_id: u64,
}

impl RequestQueue {
    /// The pending requests, oldest first.
    pub closed spec fn entries(&self) -> Seq<PendingRequest> {
        self.pending@
    }

    /// The identifier that the next request will get.
    pub closed spec fn next_id(&self) -> u64 {
        self.next_id
    }

    /// Identifiers grow along the queue and lie below the next fresh one.
    pub open spec fn wf(&self) -> bool {
        ordered_below(self.entries(), self.next_id())
    }

    /// An empty queue whose first request will get the identifier 0.
    pub fn new() -> (q: RequestQueue)
        ensures
            q.wf(),
            q.entries() == Seq::<PendingRequest>::empty(),
            q.next_id() == 0,
    {
        RequestQueue { pending: Vec::new(), next_id: 0 }
    }

    /// A queue of the requests `pending`, refused where the identifiers do
    /// not grow along it or do not lie below `next_id`.
    pub fn from_parts(pending: Vec<PendingRequest>, next_id: u64) -> (r: Option<RequestQueue>)
        ensures
            r is Some <==> ordered_below(pending@, next_id),
            r is Some ==> r->0.wf() && r->0.entries() == pending@ && r->0.next_id() == next_id,
    {
        if !requests_in_order(&pending, next_id) {
            return None;
        }
        Some(RequestQueue { pending, next_id })
    }

    /// The pending requests and the identifier that the next one will get.
    pub fn into_parts(self) -> (parts: (Vec<PendingRequest>, u64))
        ensures
            parts.0@ == self.entries(),
            parts.1 == self.next_id(),
    {
        (self.pending, self.next_id)
    }

    /// The identifier that the next request will get.
    pub fn upcoming_id(&self) -> (id: u64)
        ensures
            id == self.next_id(),
    {
        self.next_id
    }

    /// Adds a request for `payload` at the end and returns its identifier,
    /// which no request had before.
    pub fn stage(&mut self, payload: Payload) -> (id: u64)
        requires
            old(self).wf(),
            old(self).next_id() < u64::MAX,
        ensures
            final(self).wf(),
            id == old(self).next_id(),
            final(self).next_id() == id + 1,
            final(self).entries() == old(self).entries().push(
                (PendingRequest { request_id: id, payload }),
            ),
    {
        let id: u64 = self.next_id;
        self.pending.push(PendingRequest { request_id: id, payload });
        self.next_id = id + 1;
        id
    }

    /// The requests that have not been acknowledged, oldest first. Nothing
    /// changes, so two calls in a row show the same requests.
    pub fn outgoing_requests(&self) -> (out: &Vec<PendingRequest>)
        ensures
            out@ == self.entries(),
    {
        &self.pending
    }

    /// Whether a request with the identifier `id` is pending.
    pub fn is_pending(&self, id: u64) -> (b: bool)
        ensures
            b == (place_of(self.entries(), id) is Some),
    {
        proof {
            lemma_place_of(self.entries(), id);
        }
        let mut i: usize = 0;
        while i < self.pending.len()
            invariant
                i <= self.pending.len(),
                forall|j: int| 0 <= j < i ==> self.pending@[j].request_id != id,
                place_of(self.entries(), id) is None ==> !holds(self.entries(), id),
            decreases self.pending.len() - i,
        {
            if self.pending[i].request_id == id {
                assert(holds(self.entries(), id));
                return true;
            }
            i += 1;
        }
        proof {
            lemma_place_of(self.entries(), id);
        }
        false
    }

    /// Takes the request `id` out of the queue if it is pending and of kind
    /// `kind`. An unknown identifier and a wrong kind are errors that leave
    /// the queue as it was.
    pub fn resolve(&mut self, id: u64, kind: RequestKind) -> (r: Result<
        PendingRequest,
        EngineError,
    >)
        requires
            old(self).wf(),
        ensures
            final(self).wf(),
            final(self).next_id() == old(self).next_id(),
            final(self).entries() == after_ack(old(self).entries(), id, kind),
            match r {
                Ok(req) => {
                    &&& ack_outcome(old(self).entries(), id, kind) is Ok
                    &&& req == old(self).entries()[ack_outcome(old(self).entries(), id, kind)->Ok_0]
                },
                Err(e) => ack_outcome(old(self).entries(), id, kind) == Err::<int, EngineError>(e),
            },
    {
        let mut i: usize = 0;
        while i < self.pending.len()
            invariant
                i <= self.pending.len(),
                *self == *old(self),
                self.wf(),
                forall|j: int| 0 <= j < i ==> self.pending@[j].request_id != id,
            decreases self.pending.len() - i,
        {
            if self.pending[i].request_id == id {
                let same = self.pending[i].payload.kind().same(&kind);
                proof {
                    lemma_place_of(self.entries(), id);
                }
                assert(place_of(self.entries(), id) == Some(i as int));
                if !same {
                    return Err(EngineError::MalformedResponse);
                }
                proof {
                    lemma_second_ack_unknown(self.entries(), self.next_id, id, kind, kind);
                }
                let req = self.pending.remove(i);
                return Ok(req);
            }
            i += 1;
        }
        proof {
            lemma_place_of(self.entries(), id);
        }
        Err(EngineError::UnknownRequest)
    }
}

} // verus!
