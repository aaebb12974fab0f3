use vstd::prelude::*;
use crate::requests::DeviceRef;
use crate::ids::texts;
use crate::tracking::find_text;

verus! {

/// How far the local user trusts a device.
#[derive(Clone, Copy, Debug, PartialEq, Eq, Structural)]
pub enum TrustState {
    Unset,
    Verified,
    Blacklisted,
}

/// The keys of one device, as a key query reports them.
pub struct DeviceKeys {
    pub user_id: String,
    pub device_id: String,
    pub curve25519: String,
    pub ed25519: String,
}

/// An established pairwise channel with a device. The ratchet itself stays
/// with the cipher; the engine records that the channel exists and when it
/// was made.
#[derive(Clone, Copy, Debug, PartialEq, Eq, Structural)]
pub struct PairwiseSession {
    pub created_at: u64,
}

/// What the engine knows of one remote device.
pub struct DeviceRecord {
    pub user_id: String,
    pub device_id: String,
    pub curve25519: String,
    pub ed25519: String,
    pub trust: TrustState,
    /// Set once the server has stopped reporting the device.
    pub stale: bool,
    pub session: Option<PairwiseSession>,
}

impl DeviceRecord {
    /// The user and device identifiers, which name the record.
    pub open spec fn key(&self) -> (Seq<char>, Seq<char>) {
        (self.user_id@, self.device_id@)
    }
}

/// The names of the devices of `list`.
pub open spec fn refs(list: Seq<DeviceRef>) -> Seq<(Seq<char>, Seq<char>)> {
    list.map_values(|d: DeviceRef| d@)
}

/// The names of the records of `records`.
pub open spec fn keys(records: Seq<DeviceRecord>) -> Seq<(Seq<char>, Seq<char>)> {
    records.map_values(|d: DeviceRecord| d.key())
}

/// Where the record of the device `key` stands in `records`, if it is known.
pub open spec fn place_of_device(records: Seq<DeviceRecord>, key: (Seq<char>, Seq<char>)) -> Option<
    int,
> {
    keys(records).index_of_first(key)
}

/// The record of a device that is seen for the first time.
pub open spec fn first_seen(found: DeviceKeys) -> DeviceRecord {
    DeviceRecord {
        user_id: found.user_id,
        device_id: found.device_id,
        curve25519: found.curve25519,
        ed25519: found.ed25519,
        trust: TrustState::Unset,
        stale: false,
        session: None,
    }
}

/// The records after a key query has reported `found`: a device that is seen
/// for the first time gets a record at the end, with trust unset and no
/// session; a known device gets the reported keys, is no longer stale, and
/// keeps its trust and its session.
pub open spec fn after_report(records: Seq<DeviceRecord>, found: DeviceKeys) -> Seq<DeviceRecord> {
    match place_of_device(records, (found.user_id@, found.device_id@)) {
        None => records.push(first_seen(found)),
        Some(i) => records.update(
            i,
            DeviceRecord {
                curve25519: found.curve25519,
                ed25519: found.ed25519,
                stale: false,
                ..records[i]
            },
        ),
    }
}

/// The records after a handshake with the device `key` at time `now`: the
/// first session of a known device is recorded; a device that has a session
/// keeps it, and an unknown device changes nothing.
pub open spec fn after_handshake(
    records: Seq<DeviceRecord>,
    key: (Seq<char>, Seq<char>),
    now: u64,
) -> Seq<DeviceRecord> {
    match place_of_device(records, key) {
        Some(i) if records[i].session is None => records.update(
            i,
            DeviceRecord { session: Some(PairwiseSession { created_at: now }), ..records[i] },
        ),
        _ => records,
    }
}

/// The names of the devices that a key query has reported.
pub open spec fn reported_keys(found: Seq<DeviceKeys>) -> Seq<(Seq<char>, Seq<char>)> {
    found.map_values(|d: DeviceKeys| (d.user_id@, d.device_id@))
}

/// The records after a key query that covers the users `names` has reported
/// `reported`: a device of a covered user that the answer does not report is
/// stale from now on. No record is ever dropped.
pub open spec fn after_coverage(
    records: Seq<DeviceRecord>,
    names: Seq<Seq<char>>,
    reported: Seq<(Seq<char>, Seq<char>)>,
) -> Seq<DeviceRecord> {
    Seq::new(
        records.len(),
        |i: int|
            if names.contains(records[i].user_id@) && !reported.contains(records[i].key()) {
                DeviceRecord { stale: true, ..records[i] }
            } else {
                records[i]
            },
    )
}

/// Whether `found` reports the device `device_id` of `user_id`.
pub fn reports(found: &Vec<DeviceKeys>, user_id: &String, device_id: &String) -> (b: bool)
    ensures
        b == reported_keys(found@).contains((user_id@, device_id@)),
{
    let mut i: usize = 0;
    while i < found.len()
        invariant
            i <= found.len(),
            reported_keys(found@).len() == found@.len(),
            forall|j: int| 0 <= j < i ==> reported_keys(found@)[j] != (user_id@, device_id@),
        decreases found.len() - i,
    {
        assert(reported_keys(found@)[i as int] == (found@[i as int].user_id@, found@[i as int].device_id@));
        if found[i].user_id == *user_id && found[i].device_id == *device_id {
            return true;
        }
        i += 1;
    }
    false
}

/// Whether a record is a device of one of the users `names` that the server
/// still reports and that has no session yet.
pub open spec fn lacks_session(names: Seq<Seq<char>>) -> spec_fn(DeviceRecord) -> bool {
    |d: DeviceRecord| names.contains(d.user_id@) && !d.stale && d.session is None
}

/// Whether a record is a device of one of the users `names` that a room key
/// may go to:
/// the server still reports it, it is not blacklisted, and it has a session to
/// carry the key.
pub open spec fn may_receive(names: Seq<Seq<char>>) -> spec_fn(DeviceRecord) -> bool {
    |d: DeviceRecord|
        names.contains(d.user_id@) && !d.stale && d.trust != TrustState::Blacklisted
            && d.session is Some
}

/// A copy of `list`, name for name.
pub fn copy_refs(list: &Vec<DeviceRef>) -> (out: Vec<DeviceRef>)
    ensures
        refs(out@) == refs(list@),
{
    let mut out: Vec<DeviceRef> = Vec::new();
    let mut i: usize = 0;
    while i < list.len()
        invariant
            i <= list.len(),
            out@.len() == i,
            forall|j: int| 0 <= j < i ==> out@[j]@ == list@[j]@,
        decreases list.len() - i,
    {
        out.push(DeviceRef { user_id: list[i].user_id.clone(), device_id: list[i].device_id.clone() });
        i += 1;
    }
    assert(refs(out@) =~= refs(list@));
    out
}

/// `place_of_device` finds the first record with the name, and finds nothing
/// exactly where no record has it.
pub proof fn lemma_place_of_device(records: Seq<DeviceRecord>, key: (Seq<char>, Seq<char>))
    ensures
        match place_of_device(records, key) {
            Some(i) => 0 <= i < records.len() && records[i].key() == key && forall|j: int|
                0 <= j < i ==> records[j].key() != key,
            None => forall|j: int| 0 <= j < records.len() ==> records[j].key() != key,
        },
{
    let ks = keys(records);
    ks.index_of_first_ensures(key);
    match ks.index_of_first(key) {
        Some(i) => {
            assert(ks[i] == records[i].key());
            assert forall|j: int| 0 <= j < i implies records[j].key() != key by {
                assert(ks[j] == records[j].key());
            }
        },
        None => {
            assert forall|j: int| 0 <= j < records.len() implies records[j].key() != key by {
                assert(ks[j] == records[j].key());
                if records[j].key() == key {
                    assert(ks.contains(key));
                }
            }
        },
    }
}

/// Whether no device has two records in `list`.
pub fn devices_distinct(list: &Vec<DeviceRecord>) -> (b: bool)
    ensures
        b == keys(list@).no_duplicates(),
{
    let ghost t = keys(list@);
    let mut i: usize = 0;
    while i < list.len()
        invariant
            i <= list.len(),
            t == keys(list@),
            t.len() == list@.len(),
            forall|a: int, b: int| 0 <= a < b < i ==> t[a] != t[b],
        decreases list.len() - i,
    {
        let mut j: usize = 0;
        while j < i
            invariant
                j <= i < list.len(),
                t == keys(list@),
                t.len() == list@.len(),
                forall|a: int| 0 <= a < j ==> t[a] != t[i as int],
            decreases i - j,
        {
            assert(t[j as int] == list@[j as int].key() && t[i as int] == list@[i as int].key());
            if list[j].user_id == list[i].user_id && list[j].device_id == list[i].device_id {
                return false;
            }
            j += 1;
        }
        i += 1;
    }
    true
}

/// The catalog of known remote devices, each with its trust state and, once a
/// handshake has succeeded, its pairwise session.
pub struct DeviceStore {
    pub(crate) records: Vec<DeviceRecord>,
}

impl DeviceStore {
    /// The records, in the order in which the devices were first seen.
    pub closed spec fn records(&self) -> Seq<DeviceRecord> {
        self.records@
    }

    /// No device has two records.
    pub open spec fn wf(&self) -> bool {
        keys(self.records()).no_duplicates()
    }

    /// A catalog that knows no device.
    pub fn new() -> (s: DeviceStore)
        ensures
            s.wf(),
            s.records() == Seq::<DeviceRecord>::empty(),
    {
        DeviceStore { records: Vec::new() }
    }

    /// A catalog of the records `records`, refused where a device has two.
    pub fn from_parts(records: Vec<DeviceRecord>) -> (r: Option<DeviceStore>)
        ensures
            r is Some <==> keys(records@).no_duplicates(),
            r is Some ==> r->0.wf() && r->0.records() == records@,
    {
        if !devices_distinct(&records) {
            return None;
        }
        Some(DeviceStore { records })
    }

    /// The records of the catalog.
    pub fn into_parts(self) -> (records: Vec<DeviceRecord>)
        ensures
            records@ == self.records(),
    {
        self.records
    }

    /// The place of the record of the device `device_id` of `user_id`.
    pub fn find(&self, user_id: &String, device_id: &String) -> (at: Option<usize>)
        ensures
            match at {
                Some(i) => place_of_device(self.records(), (user_id@, device_id@)) == Some(i as int),
                None => place_of_device(self.records(), (user_id@, device_id@)) is None,
            },
            at is Some ==> at->0 < self.records().len(),
    {
        proof {
            lemma_place_of_device(self.records(), (user_id@, device_id@));
        }
        let mut i: usize = 0;
        while i < self.records.len()
            invariant
                i <= self.records.len(),
                forall|j: int| 0 <= j < i ==> self.records@[j].key() != (user_id@, device_id@),
                match place_of_device(self.records(), (user_id@, device_id@)) {
                    Some(k) => 0 <= k < self.records@.len() && self.records@[k].key() == (
                        user_id@,
                        device_id@,
                    ) && forall|j: int| 0 <= j < k ==> self.records@[j].key() != (user_id@, device_id@),
                    None => forall|j: int|
                        0 <= j < self.records@.len() ==> self.records@[j].key() != (
                            user_id@,
                            device_id@,
                        ),
                },
            decreases self.records.len() - i,
        {
            if self.records[i].user_id == *user_id && self.records[i].device_id == *device_id {
                return Some(i);
            }
            i += 1;
        }
        None
    }

    /// Whether the record at place `at` has a pairwise session.
    pub fn has_session(&self, at: usize) -> (b: bool)
        requires
            at < self.records().len(),
        ensures
            b == (self.records()[at as int].session is Some),
    {
        self.records[at].session.is_some()
    }

    /// The pairwise session of the record at place `at`, if it has one.
    pub fn session_of(&self, at: usize) -> (session: Option<PairwiseSession>)
        requires
            at < self.records().len(),
        ensures
            session == self.records()[at as int].session,
    {
        self.records[at].session
    }

    /// Takes in the keys of one device from a key query.
    pub fn report(&mut self, found: DeviceKeys)
        requires
            old(self).wf(),
        ensures
            final(self).wf(),
            final(self).records() == after_report(old(self).records(), found),
    {
        let at = self.find(&found.user_id, &found.device_id);
        proof {
            lemma_place_of_device(self.records(), (found.user_id@, found.device_id@));
        }
        let ghost before = self.records@;
        match at {
            None => {
                self.records.push(
                    DeviceRecord {
                        user_id: found.user_id,
                        device_id: found.device_id,
                        curve25519: found.curve25519,
                        ed25519: found.ed25519,
                        trust: TrustState::Unset,
                        stale: false,
                        session: None,
                    },
                );
                proof {
                    assert(keys(self.records@) =~= keys(before).push(
                        (found.user_id@, found.device_id@),
                    ));
                    assert forall|j: int| 0 <= j < keys(before).len() implies keys(before)[j] != (
                        found.user_id@,
                        found.device_id@,
                    ) by {
                        assert(keys(before)[j] == before[j].key());
                    }
                }
            },
            Some(i) => {
                let known = self.records.remove(i);
                self.records.insert(
                    i,
                    DeviceRecord {
                        user_id: known.user_id,
                        device_id: known.device_id,
                        curve25519: found.curve25519,
                        ed25519: found.ed25519,
                        trust: known.trust,
                        stale: false,
                        session: known.session,
                    },
                );
                proof {
                    assert(self.records@ =~= after_report(before, found));
                    assert(keys(self.records@) =~= keys(before));
                }
            },
        }
    }

    /// Marks as stale the devices of the users `users` that the answer
    /// `found` to a key query does not report.
    pub fn mark_unreported(&mut self, users: &Vec<String>, found: &Vec<DeviceKeys>)
        requires
            old(self).wf(),
        ensures
            final(self).wf(),
            final(self).records() == after_coverage(
                old(self).records(),
                texts(users@),
                reported_keys(found@),
            ),
    {
        let ghost before = self.records@;
        let ghost goal = after_coverage(before, texts(users@), reported_keys(found@));
        let mut i: usize = 0;
        while i < self.records.len()
            invariant
                i <= self.records.len(),
                before == old(self).records@,
                goal == after_coverage(before, texts(users@), reported_keys(found@)),
                self.records@.len() == before.len(),
                forall|j: int| 0 <= j < i ==> self.records@[j] == goal[j],
                forall|j: int| i <= j < before.len() ==> self.records@[j] == before[j],
            decreases self.records.len() - i,
        {
            let at = find_text(users, &self.records[i].user_id);
            proof {
                if let Some(k) = at {
                    assert(texts(users@)[k as int] == self.records@[i as int].user_id@);
                }
            }
            if at.is_some() && !reports(found, &self.records[i].user_id, &self.records[i].device_id) {
                let ghost now = self.records@;
                let known = self.records.remove(i);
                self.records.insert(
                    i,
                    DeviceRecord {
                        user_id: known.user_id,
                        device_id: known.device_id,
                        curve25519: known.curve25519,
                        ed25519: known.ed25519,
                        trust: known.trust,
                        stale: true,
                        session: known.session,
                    },
                );
                assert(self.records@ =~= now.update(
                    i as int,
                    DeviceRecord { stale: true, ..now[i as int] },
                ));
            }
            i += 1;
        }
        assert(self.records@ =~= goal);
        assert(keys(goal) =~= keys(before));
    }

    /// Records a first successful handshake with a device. The first session
    /// of a device wins: a later handshake leaves it in place.
    pub fn establish(&mut self, user_id: &String, device_id: &String, now: u64) -> (made: bool)
        requires
            old(self).wf(),
        ensures
            final(self).wf(),
            final(self).records() == after_handshake(
                old(self).records(),
                (user_id@, device_id@),
                now,
            ),
            made == (final(self).records() != old(self).records()),
    {
        let at = self.find(user_id, device_id);
        let ghost before = self.records@;
        match at {
            Some(i) => {
                if self.records[i].session.is_none() {
                    let known = self.records.remove(i);
                    self.records.insert(
                        i,
                        DeviceRecord {
                            user_id: known.user_id,
                            device_id: known.device_id,
                            curve25519: known.curve25519,
                            ed25519: known.ed25519,
                            trust: known.trust,
                            stale: known.stale,
                            session: Some(PairwiseSession { created_at: now }),
                        },
                    );
                    proof {
                        assert(self.records@ =~= after_handshake(
                            before,
                            (user_id@, device_id@),
                            now,
                        ));
                        assert(keys(self.records@) =~= keys(before));
                        assert(self.records@[i as int].session != before[i as int].session);
                    }
                    true
                } else {
                    false
                }
            },
            None => false,
        }
    }

    /// Sets the trust state of a known device; an unknown device changes
    /// nothing, and the result says whether the device was known.
    pub fn set_trust(&mut self, user_id: &String, device_id: &String, trust: TrustState) -> (known:
        bool)
        requires
            old(self).wf(),
        ensures
            final(self).wf(),
            known == (place_of_device(old(self).records(), (user_id@, device_id@)) is Some),
            final(self).records() == match place_of_device(
                old(self).records(),
                (user_id@, device_id@),
            ) {
                Some(i) => old(self).records().update(
                    i,
                    DeviceRecord { trust, ..old(self).records()[i] },
                ),
                None => old(self).records(),
            },
    {
        let at = self.find(user_id, device_id);
        let ghost before = self.records@;
        match at {
            Some(i) => {
                let known = self.records.remove(i);
                self.records.insert(
                    i,
                    DeviceRecord {
                        user_id: known.user_id,
                        device_id: known.device_id,
                        curve25519: known.curve25519,
                        ed25519: known.ed25519,
                        trust,
                        stale: known.stale,
                        session: known.session,
                    },
                );
                proof {
                    assert(self.records@ =~= before.update(
                        i as int,
                        DeviceRecord { trust, ..before[i as int] },
                    ));
                    assert(keys(self.records@) =~= keys(before));
                }
                true
            },
            None => false,
        }
    }

    /// The devices of `users` that the server still reports and that have no
    /// pairwise session yet, in the order of the catalog: the targets of a key
    /// claim.
    pub fn missing_sessions(&self, users: &Vec<String>) -> (out: Vec<DeviceRef>)
        ensures
            refs(out@) == self.records().filter(lacks_session(texts(users@))).map_values(
                |d: DeviceRecord| d.key(),
            ),
    {
        let mut out: Vec<DeviceRef> = Vec::new();
        let mut i: usize = 0;
        let ghost pick = lacks_session(texts(users@));
        let ghost name = |d: DeviceRecord| d.key();
        proof {
            reveal(Seq::filter);
            assert(self.records@.take(0) =~= Seq::<DeviceRecord>::empty());
            assert(refs(out@) =~= self.records@.take(0).filter(pick).map_values(name));
        }
        while i < self.records.len()
            invariant
                i <= self.records.len(),
                pick == lacks_session(texts(users@)),
                name == |d: DeviceRecord| d.key(),
                refs(out@) == self.records@.take(i as int).filter(pick).map_values(name),
            decreases self.records.len() - i,
        {
            let ghost before = out@;
            let at = find_text(users, &self.records[i].user_id);
            let wanted = at.is_some() && !self.records[i].stale && self.records[i].session.is_none();
            proof {
                if let Some(k) = at {
                    assert(texts(users@)[k as int] == self.records@[i as int].user_id@);
                }
                assert(wanted == pick(self.records@[i as int]));
                reveal(Seq::filter);
                let next = self.records@.take(i + 1);
                assert(next.drop_last() =~= self.records@.take(i as int));
                assert(next.last() == self.records@[i as int]);
            }
            if wanted {
                out.push(
                    DeviceRef {
                        user_id: self.records[i].user_id.clone(),
                        device_id: self.records[i].device_id.clone(),
                    },
                );
                assert(refs(out@) =~= refs(before).push(self.records@[i as int].key()));
                assert(self.records@.take(i + 1).filter(pick).map_values(name)
                    =~= self.records@.take(i as int).filter(pick).map_values(name).push(
                    self.records@[i as int].key(),
                ));
            }
            i += 1;
        }
        assert(self.records@.take(self.records.len() as int) =~= self.records@);
        out
    }

    /// The devices of `users` that a room key may be sent to, in the order of
    /// the catalog: those that the server still reports, that are not
    /// blacklisted, and that have a pairwise session.
    pub fn share_targets(&self, users: &Vec<String>) -> (out: Vec<DeviceRef>)
        ensures
            refs(out@) == self.records().filter(may_receive(texts(users@))).map_values(
                |d: DeviceRecord| d.key(),
            ),
    {
        let mut out: Vec<DeviceRef> = Vec::new();
        let mut i: usize = 0;
        let ghost pick = may_receive(texts(users@));
        let ghost name = |d: DeviceRecord| d.key();
        proof {
            reveal(Seq::filter);
            assert(self.records@.take(0) =~= Seq::<DeviceRecord>::empty());
            assert(refs(out@) =~= self.records@.take(0).filter(pick).map_values(name));
        }
        while i < self.records.len()
            invariant
                i <= self.records.len(),
                pick == may_receive(texts(users@)),
                name == |d: DeviceRecord| d.key(),
                refs(out@) == self.records@.take(i as int).filter(pick).map_values(name),
            decreases self.records.len() - i,
        {
            let ghost before = out@;
            let at = find_text(users, &self.records[i].user_id);
            let barred = matches!(self.records[i].trust, TrustState::Blacklisted);
            let wanted = at.is_some() && !self.records[i].stale && !barred
                && self.records[i].session.is_some();
            proof {
                if let Some(k) = at {
                    assert(texts(users@)[k as int] == self.records@[i as int].user_id@);
                }
                assert(wanted == pick(self.records@[i as int]));
                reveal(Seq::filter);
                let next = self.records@.take(i + 1);
                assert(next.drop_last() =~= self.records@.take(i as int));
                assert(next.last() == self.records@[i as int]);
            }
            if wanted {
                out.push(
                    DeviceRef {
                        user_id: self.records[i].user_id.clone(),
                        device_id: self.records[i].device_id.clone(),
                    },
                );
                assert(refs(out@) =~= refs(before).push(self.records@[i as int].key()));
                assert(self.records@.take(i + 1).filter(pick).map_values(name)
                    =~= self.records@.take(i as int).filter(pick).map_values(name).push(
                    self.records@[i as int].key(),
                ));
            }
            i += 1;
        }
        assert(self.records@.take(self.records.len() as int) =~= self.records@);
        out
    }
}

} // verus!
