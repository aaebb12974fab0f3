use vstd::prelude::*;
use crate::error::EngineError;
use crate::requests::DeviceRef;

verus! {

/// A one-time key of this device. Its identifier is its place in the ledger.
pub struct OneTimeKey {
    pub public_key: String,
    pub claimed_by: Option<DeviceRef>,
}

/// A key as it is right after generation.
pub open spec fn unclaimed_key(public_key: String) -> OneTimeKey {
    OneTimeKey { public_key, claimed_by: None }
}

/// Whether a key is still free for a peer to claim.
pub open spec fn is_free() -> spec_fn(OneTimeKey) -> bool {
    |k: OneTimeKey| k.claimed_by is None
}

/// Whether the peer `peer` may claim the key `key_id`: the key has been
/// published and nobody has claimed it.
pub open spec fn claimable(keys: Seq<OneTimeKey>, published: int, key_id: int) -> bool {
    0 <= key_id < published && key_id < keys.len() && keys[key_id].claimed_by is None
}

/// The keys after `peer` has asked for the key `key_id`: a claimable key
/// becomes the peer's, and nothing changes otherwise.
pub open spec fn after_claim(
    keys: Seq<OneTimeKey>,
    published: int,
    key_id: int,
    peer: DeviceRef,
) -> Seq<OneTimeKey> {
    if claimable(keys, published, key_id) {
        keys.update(key_id, OneTimeKey { claimed_by: Some(peer), ..keys[key_id] })
    } else {
        keys
    }
}

/// A one-time key serves one peer: once a claim of a key has been accepted,
/// no later claim of that key is, by the same peer or another, and the key
/// stays with the first.
pub proof fn lemma_key_serves_one_peer(
    keys: Seq<OneTimeKey>,
    published: int,
    key_id: int,
    first: DeviceRef,
    second: DeviceRef,
)
    requires
        claimable(keys, published, key_id),
    ensures
        !claimable(after_claim(keys, published, key_id, first), published, key_id),
        after_claim(after_claim(keys, published, key_id, first), published, key_id, second)
            == after_claim(keys, published, key_id, first),
        after_claim(keys, published, key_id, first)[key_id].claimed_by == Some(first),
{
}

/// The one-time keys that this device has generated, which of them the
/// server has, and which a peer has used.
pub struct KeyLedger {
    pub(crate) keys: Vec<OneTimeKey>,
    pub(crate) published: usize,
    pub(crate) identity_uploaded: bool,
    pub(crate) in_flight: bool,
    pub(crate) low_water: usize,
}

impl KeyLedger {
    /// All keys that were ever generated, by identifier.
    pub closed spec fn keys(&self) -> Seq<OneTimeKey> {
        self.keys@
    }

    /// The keys below this identifier have been accepted by the server.
    pub closed spec fn published(&self) -> int {
        self.published as int
    }

    /// Whether the server has this device's identity keys.
    pub closed spec fn identity_uploaded(&self) -> bool {
        self.identity_uploaded
    }

    /// Whether an upload awaits its confirmation.
    pub closed spec fn in_flight(&self) -> bool {
        self.in_flight
    }

    /// The supply below which more keys are uploaded.
    pub closed spec fn low_water(&self) -> int {
        self.low_water as int
    }

    /// Only generated keys are published, and keys beyond the published ones
    /// exist only while an upload is in flight.
    pub open spec fn wf(&self) -> bool {
        &&& 0 <= self.published() <= self.keys().len()
        &&& !self.in_flight() ==> self.published() == self.keys().len()
    }

    /// How many published keys are free for peers to claim.
    pub open spec fn supply(&self) -> int {
        self.keys().take(self.published()).filter(is_free()).len() as int
    }

    /// Whether an upload is called for: the identity keys were never
    /// uploaded, or the supply is below the low-water mark.
    pub open spec fn upload_due(&self) -> bool {
        !self.identity_uploaded() || self.supply() < self.low_water()
    }

    /// A ledger without keys.
    pub fn new(low_water: usize) -> (l: KeyLedger)
        ensures
            l.wf(),
            l.keys() == Seq::<OneTimeKey>::empty(),
            l.published() == 0,
            !l.identity_uploaded(),
            !l.in_flight(),
            l.low_water() == low_water,
    {
        KeyLedger {
            keys: Vec::new(),
            published: 0,
            identity_uploaded: false,
            in_flight: false,
            low_water,
        }
    }

    /// A ledger of the keys `keys`, of which those below `published` are
    /// published. The values are refused where more keys are published than
    /// there are, or unpublished keys exist without an upload in flight.
    pub fn from_parts(
        keys: Vec<OneTimeKey>,
        published: usize,
        identity_uploaded: bool,
        in_flight: bool,
        low_water: usize,
    ) -> (r: Option<KeyLedger>)
        ensures
            r is Some <==> (published <= keys@.len() && (!in_flight ==> published == keys@.len())),
            r is Some ==> {
                &&& r->0.wf()
                &&& r->0.keys() == keys@
                &&& r->0.published() == published
                &&& r->0.identity_uploaded() == identity_uploaded
                &&& r->0.in_flight() == in_flight
                &&& r->0.low_water() == low_water
            },
    {
        if published > keys.len() || (!in_flight && published != keys.len()) {
            return None;
        }
        Some(KeyLedger { keys, published, identity_uploaded, in_flight, low_water })
    }

    /// The keys, how many of them are published, whether the identity keys
    /// are uploaded, whether an upload is in flight, and the low-water mark.
    pub fn into_parts(self) -> (parts: (Vec<OneTimeKey>, usize, bool, bool, usize))
        ensures
            parts.0@ == self.keys(),
            parts.1 == self.published(),
            parts.2 == self.identity_uploaded(),
            parts.3 == self.in_flight(),
            parts.4 == self.low_water(),
    {
        (self.keys, self.published, self.identity_uploaded, self.in_flight, self.low_water)
    }

    /// Whether the host should upload keys.
    pub fn should_upload_keys(&self) -> (due: bool)
        requires
            self.wf(),
        ensures
            due == self.upload_due(),
    {
        if !self.identity_uploaded {
            return true;
        }
        let mut free: usize = 0;
        let mut i: usize = 0;
        proof {
            reveal(Seq::filter);
            assert(self.keys@.take(0) =~= Seq::<OneTimeKey>::empty());
        }
        while i < self.published
            invariant
                i <= self.published <= self.keys@.len(),
                free == self.keys@.take(i as int).filter(is_free()).len(),
                free <= i,
            decreases self.published - i,
        {
            proof {
                reveal(Seq::filter);
                let next = self.keys@.take(i + 1);
                assert(next.drop_last() =~= self.keys@.take(i as int));
                assert(next.last() == self.keys@[i as int]);
            }
            if self.keys[i].claimed_by.is_none() {
                free += 1;
            }
            i += 1;
        }
        free < self.low_water
    }

    /// Takes a freshly generated batch of public keys into the ledger as the
    /// upload to send, unless an upload already awaits its confirmation: then
    /// the batch is dropped and nothing changes. The result gives the first
    /// identifier of the batch, its size, and whether the identity keys go
    /// with it.
    pub fn stage_batch(&mut self, fresh: &Vec<String>) -> (batch: Option<(bool, usize, usize)>)
        requires
            old(self).wf(),
        ensures
            final(self).wf(),
            final(self).published() == old(self).published(),
            final(self).identity_uploaded() == old(self).identity_uploaded(),
            final(self).low_water() == old(self).low_water(),
            match batch {
                None => {
                    &&& old(self).in_flight()
                    &&& final(self).in_flight()
                    &&& final(self).keys() == old(self).keys()
                },
                Some((with_identity, first, count)) => {
                    &&& !old(self).in_flight()
                    &&& final(self).in_flight()
                    &&& with_identity == !old(self).identity_uploaded()
                    &&& first == old(self).keys().len()
                    &&& count == fresh@.len()
                    &&& final(self).keys() == old(self).keys() + fresh@.map_values(
                        |s: String| unclaimed_key(s),
                    )
                },
            },
    {
        if self.in_flight {
            return None;
        }
        let first = self.keys.len();
        let mut i: usize = 0;
        while i < fresh.len()
            invariant
                i <= fresh.len(),
                first == old(self).keys@.len(),
                self.published == old(self).published,
                self.identity_uploaded == old(self).identity_uploaded,
                self.low_water == old(self).low_water,
                self.published <= first,
                self.keys@ == old(self).keys@ + fresh@.take(i as int).map_values(
                    |s: String| unclaimed_key(s),
                ),
            decreases fresh.len() - i,
        {
            let ghost before = self.keys@;
            self.keys.push(OneTimeKey { public_key: fresh[i].clone(), claimed_by: None });
            proof {
                assert(fresh@.take(i + 1) =~= fresh@.take(i as int).push(fresh@[i as int]));
                assert(self.keys@ =~= old(self).keys@ + fresh@.take(i + 1).map_values(
                    |s: String| unclaimed_key(s),
                ));
            }
            i += 1;
        }
        assert(fresh@.take(fresh.len() as int) =~= fresh@);
        self.in_flight = true;
        Some((!self.identity_uploaded, first, fresh.len()))
    }

    /// The server has accepted the upload in flight: every generated key is
    /// now published, and so are the identity keys.
    pub fn confirm_upload(&mut self)
        requires
            old(self).wf(),
        ensures
            final(self).wf(),
            final(self).keys() == old(self).keys(),
            final(self).published() == old(self).keys().len(),
            final(self).identity_uploaded(),
            !final(self).in_flight(),
            final(self).low_water() == old(self).low_water(),
    {
        self.published = self.keys.len();
        self.identity_uploaded = true;
        self.in_flight = false;
    }

    /// The upload in flight has failed or was given up: the keys of its batch
    /// are forgotten, since the server never had them, and a new batch can be
    /// staged. The published keys stay as they are.
    pub fn abandon_upload(&mut self)
        requires
            old(self).wf(),
        ensures
            final(self).wf(),
            final(self).keys() == old(self).keys().subrange(0, old(self).published()),
            final(self).published() == old(self).published(),
            final(self).identity_uploaded() == old(self).identity_uploaded(),
            !final(self).in_flight(),
            final(self).low_water() == old(self).low_water(),
    {
        self.keys.truncate(self.published);
        self.in_flight = false;
    }

    /// A peer opens a channel with the key `key_id`. The claim is accepted
    /// where the key is published and free, and the key is then the peer's;
    /// any other claim is a cryptographic failure that changes nothing.
    pub fn claim(&mut self, key_id: usize, peer: DeviceRef) -> (r: Result<(), EngineError>)
        requires
            old(self).wf(),
        ensures
            final(self).wf(),
            final(self).published() == old(self).published(),
            final(self).identity_uploaded() == old(self).identity_uploaded(),
            final(self).in_flight() == old(self).in_flight(),
            final(self).low_water() == old(self).low_water(),
            final(self).keys() == after_claim(
                old(self).keys(),
                old(self).published(),
                key_id as int,
                peer,
            ),
            r == if claimable(old(self).keys(), old(self).published(), key_id as int) {
                Ok::<(), EngineError>(())
            } else {
                Err::<(), EngineError>(EngineError::CryptographicFailure)
            },
    {
        if key_id < self.published && self.keys[key_id].claimed_by.is_none() {
            let ghost before = self.keys@;
            let key = self.keys.remove(key_id);
            self.keys.insert(key_id, OneTimeKey { public_key: key.public_key, claimed_by: Some(peer) });
            assert(self.keys@ =~= after_claim(before, self.published as int, key_id as int, peer));
            Ok(())
        } else {
            Err(EngineError::CryptographicFailure)
        }
    }
}

} // verus!
