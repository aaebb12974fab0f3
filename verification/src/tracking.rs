use vstd::prelude::*;
use vstd::seq_lib::*;
use crate::ids::{accepted_names, texts, user_id_accepted, valid_user_ids};

verus! {

/// Whether `text` is the text of an entry of `list`.
pub open spec fn listed(list: Seq<String>, text: Seq<char>) -> bool {
    texts(list).contains(text)
}

/// The well-formed user identifiers among `users`.
pub open spec fn accepted_among(users: Seq<String>) -> Set<Seq<char>> {
    Set::new(|u: Seq<char>| listed(users, u) && user_id_accepted(u))
}

/// The well-formed identifiers of a list, taken as a set, are the well-formed
/// identifiers among its entries.
pub proof fn lemma_accepted_names_are_accepted_among(users: Seq<String>)
    ensures
        accepted_names(users).to_set() == accepted_among(users),
{
    let all = texts(users);
    let pick = |t: Seq<char>| user_id_accepted(t);
    let kept = all.filter(pick);
    assert forall|u: Seq<char>| kept.to_set().contains(u) <==> accepted_among(users).contains(u) by {
        if kept.contains(u) {
            all.lemma_filter_contains_rev(pick, u);
            let i = choose|i: int| 0 <= i < kept.len() && kept[i] == u;
            all.lemma_filter_pred(pick, i);
        }
        if all.contains(u) && user_id_accepted(u) {
            let i = choose|i: int| 0 <= i < all.len() && all[i] == u;
            all.lemma_filter_contains(pick, i);
        }
    }
    assert(kept.to_set() =~= accepted_among(users));
}

/// A list with one more entry lists what it listed before and the text of
/// the new entry.
pub proof fn lemma_listed_push(list: Seq<String>, s: String, u: Seq<char>)
    ensures
        texts(list.push(s)) == texts(list).push(s@),
        listed(list.push(s), u) <==> (listed(list, u) || s@ == u),
{
    assert(texts(list.push(s)) =~= texts(list).push(s@));
    lemma_seq_contains_after_push(texts(list), s@, u);
}

/// The first `i + 1` entries of a list list what the first `i` do and the
/// text of the entry at `i`.
pub proof fn lemma_listed_take(list: Seq<String>, i: int, u: Seq<char>)
    requires
        0 <= i < list.len(),
    ensures
        listed(list.take(i + 1), u) <==> (listed(list.take(i), u) || list[i]@ == u),
{
    assert(list.take(i + 1) =~= list.take(i).push(list[i]));
    lemma_listed_push(list.take(i), list[i], u);
}

/// The place of an entry of `list` with the text of `text`, if there is one.
pub fn find_text(list: &Vec<String>, text: &String) -> (at: Option<usize>)
    ensures
        match at {
            Some(i) => i < list.len() && list@[i as int]@ == text@,
            None => !listed(list@, text@),
        },
{
    let mut i: usize = 0;
    while i < list.len()
        invariant
            i <= list.len(),
            forall|j: int| 0 <= j < i ==> list@[j]@ != text@,
        decreases list.len() - i,
    {
        if list[i] == *text {
            return Some(i);
        }
        i += 1;
    }
    proof {
        if listed(list@, text@) {
            let j = choose|j: int| 0 <= j < texts(list@).len() && texts(list@)[j] == text@;
            assert(list@[j]@ == text@);
        }
    }
    None
}

/// A copy of `list`, text for text.
pub fn copy_texts(list: &Vec<String>) -> (out: Vec<String>)
    ensures
        texts(out@) == texts(list@),
{
    let mut out: Vec<String> = Vec::new();
    let mut i: usize = 0;
    while i < list.len()
        invariant
            i <= list.len(),
            out@.len() == i,
            forall|j: int| 0 <= j < i ==> out@[j]@ == list@[j]@,
        decreases list.len() - i,
    {
        out.push(list[i].clone());
        i += 1;
    }
    assert(texts(out@) =~= texts(list@));
    out
}

/// Whether no text stands twice in `list`.
pub fn texts_distinct(list: &Vec<String>) -> (b: bool)
    ensures
        b == texts(list@).no_duplicates(),
{
    let ghost t = texts(list@);
    let mut i: usize = 0;
    while i < list.len()
        invariant
            i <= list.len(),
            t == texts(list@),
            t.len() == list@.len(),
            forall|a: int, b: int| 0 <= a < b < i ==> t[a] != t[b],
        decreases list.len() - i,
    {
        let mut j: usize = 0;
        while j < i
            invariant
                j <= i < list.len(),
                t == texts(list@),
                t.len() == list@.len(),
                forall|a: int| 0 <= a < j ==> t[a] != t[i as int],
            decreases i - j,
        {
            assert(t[j as int] == list@[j as int]@ && t[i as int] == list@[i as int]@);
            if list[j] == list[i] {
                return false;
            }
            j += 1;
        }
        i += 1;
    }
    true
}

/// Whether every text of `part` stands in `whole`.
pub fn texts_within(part: &Vec<String>, whole: &Vec<String>) -> (b: bool)
    ensures
        b == forall|i: int| 0 <= i < part@.len() ==> listed(whole@, #[trigger] part@[i]@),
{
    let mut i: usize = 0;
    while i < part.len()
        invariant
            i <= part.len(),
            forall|a: int| 0 <= a < i ==> listed(whole@, #[trigger] part@[a]@),
        decreases part.len() - i,
    {
        let at = find_text(whole, &part[i]);
        proof {
            if let Some(k) = at {
                assert(texts(whole@)[k as int] == part@[i as int]@);
            }
        }
        if at.is_none() {
            return false;
        }
        i += 1;
    }
    true
}

/// The users whose device lists the engine keeps current, and those among
/// them whose list has to be fetched again.
pub struct Tracker {
    pub(crate) watched: Vec<String>,
    pub(crate) stale: Vec<String>,
}

impl Tracker {
    /// The watched users.
    pub closed spec fn watched(&self) -> Set<Seq<char>> {
        texts(self.watched@).to_set()
    }

    /// The users that need a key query, in the order in which they came to
    /// need it.
    pub closed spec fn query_list(&self) -> Seq<Seq<char>> {
        texts(self.stale@)
    }

    /// The users that need a key query.
    pub open spec fn needing_query(&self) -> Set<Seq<char>> {
        self.query_list().to_set()
    }

    /// No user waits twice, and only watched users wait.
    pub open spec fn wf(&self) -> bool {
        &&& self.query_list().no_duplicates()
        &&& self.needing_query().subset_of(self.watched())
    }

    /// A tracker that tracks nobody.
    pub fn new() -> (t: Tracker)
        ensures
            t.wf(),
            t.watched() == Set::<Seq<char>>::empty(),
            t.query_list() == Seq::<Seq<char>>::empty(),
    {
        let t = Tracker { watched: Vec::new(), stale: Vec::new() };
        assert(t.watched() =~= Set::<Seq<char>>::empty());
        assert(t.query_list() =~= Seq::<Seq<char>>::empty());
        t
    }

    /// A tracker of the users `watched`, of whom `waiting` need a key query.
    /// The lists are refused where a user waits twice or a user waits who is
    /// not watched.
    pub fn from_parts(watched: Vec<String>, waiting: Vec<String>) -> (r: Option<Tracker>)
        ensures
            r is Some <==> (texts(waiting@).no_duplicates() && forall|i: int|
                0 <= i < waiting@.len() ==> listed(watched@, #[trigger] waiting@[i]@)),
            r is Some ==> r->0.wf() && r->0.watched() == texts(watched@).to_set()
                && r->0.query_list() == texts(waiting@),
    {
        if !(texts_distinct(&waiting) && texts_within(&waiting, &watched)) {
            return None;
        }
        let t = Tracker { watched, stale: waiting };
        proof {
            assert forall|u: Seq<char>| t.needing_query().contains(u) implies t.watched().contains(
                u,
            ) by {
                let i = choose|i: int| 0 <= i < texts(t.stale@).len() && texts(t.stale@)[i] == u;
                assert(listed(t.watched@, t.stale@[i]@));
            }
        }
        Some(t)
    }

    /// The watched users and, second, those of them that need a key query.
    pub fn into_parts(self) -> (parts: (Vec<String>, Vec<String>))
        requires
            self.wf(),
        ensures
            texts(parts.0@).to_set() == self.watched(),
            texts(parts.1@) == self.query_list(),
            texts(parts.1@).no_duplicates(),
            forall|i: int| 0 <= i < parts.1@.len() ==> listed(parts.0@, #[trigger] parts.1@[i]@),
    {
        proof {
            assert forall|i: int| 0 <= i < self.stale@.len() implies listed(
                self.watched@,
                #[trigger] self.stale@[i]@,
            ) by {
                assert(texts(self.stale@)[i] == self.stale@[i]@);
                assert(self.needing_query().contains(self.stale@[i]@));
                assert(self.watched().contains(self.stale@[i]@));
            }
        }
        (self.watched, self.stale)
    }

    /// Starts watching `users`, as they stand. Those that were not watched
    /// before now need a key query.
    pub fn track(&mut self, users: &Vec<String>)
        requires
            old(self).wf(),
        ensures
            final(self).wf(),
            final(self).watched() == old(self).watched().union(texts(users@).to_set()),
            final(self).needing_query() == old(self).needing_query().union(
                texts(users@).to_set().difference(old(self).watched()),
            ),
    {
        let mut i: usize = 0;
        assert(users@.take(0) =~= Seq::<String>::empty());
        while i < users.len()
            invariant
                i <= users.len(),
                self.wf(),
                old(self).wf(),
                forall|u: Seq<char>|
                    #![trigger listed(self.watched@, u)]
                    listed(self.watched@, u) <==> (listed(old(self).watched@, u) || (listed(
                        users@.take(i as int),
                        u,
                    ))),
                forall|u: Seq<char>|
                    #![trigger listed(self.stale@, u)]
                    listed(self.stale@, u) <==> (listed(old(self).stale@, u) || (listed(
                        users@.take(i as int),
                        u,
                    ) && !listed(old(self).watched@, u))),
            decreases users.len() - i,
        {
            let ghost watched_before = self.watched@;
            let ghost stale_before = self.stale@;
            let at = find_text(&self.watched, &users[i]);
            let fresh = at.is_none();
            proof {
                if let Some(k) = at {
                    assert(texts(watched_before)[k as int] == users@[i as int]@);
                }
                assert(at.is_some() <==> listed(watched_before, users@[i as int]@));
            }
            if fresh {
                assert(!listed(stale_before, users@[i as int]@)) by {
                    if listed(stale_before, users@[i as int]@) {
                        assert(self.needing_query().contains(users@[i as int]@));
                        assert(self.watched().contains(users@[i as int]@));
                    }
                }
                self.watched.push(users[i].clone());
                self.stale.push(users[i].clone());
            }
            proof {
                let added = users@[i as int];
                assert forall|u: Seq<char>|
                    #![trigger listed(self.watched@, u)]
                    listed(self.watched@, u) <==> (listed(old(self).watched@, u) || (listed(
                        users@.take(i + 1),
                        u,
                    ))) by {
                    lemma_listed_take(users@, i as int, u);
                    if fresh {
                        lemma_listed_push(watched_before, added, u);
                    }
                    assert(listed(watched_before, u) <==> (listed(old(self).watched@, u) || (listed(
                        users@.take(i as int),
                        u,
                    ))));
                }
                assert forall|u: Seq<char>|
                    #![trigger listed(self.stale@, u)]
                    listed(self.stale@, u) <==> (listed(old(self).stale@, u) || (listed(
                        users@.take(i + 1),
                        u,
                    ) && !listed(old(self).watched@, u))) by {
                    lemma_listed_take(users@, i as int, u);
                    if fresh {
                        lemma_listed_push(stale_before, added, u);
                    }
                    assert(listed(watched_before, added@) <==> (listed(old(self).watched@, added@)
                        || (listed(users@.take(i as int), added@))));
                    assert(listed(stale_before, u) <==> (listed(old(self).stale@, u) || (listed(
                        users@.take(i as int),
                        u,
                    ) && !listed(old(self).watched@, u))));
                }
                if fresh {
                    lemma_listed_push(stale_before, added, added@);
                    assert(texts(self.stale@) == texts(stale_before).push(added@));
                    assert(texts(stale_before).no_duplicates());
                    assert(!texts(stale_before).contains(added@));
                    assert(texts(self.stale@).no_duplicates());
                }
                assert forall|u: Seq<char>| self.needing_query().contains(u) implies self.watched().contains(
                    u,
                ) by {
                    assert(listed(self.stale@, u));
                    assert(listed(stale_before, u) ==> old(self).needing_query().contains(u)
                        || listed(watched_before, u));
                    assert(listed(self.watched@, u));
                }
            }
            i += 1;
        }
        proof {
            assert(users@.take(users.len() as int) =~= users@);
            assert forall|u: Seq<char>|
                final(self).watched().contains(u) <==> old(self).watched().union(
                    texts(users@).to_set(),
                ).contains(u) by {
                assert(listed(self.watched@, u) <==> final(self).watched().contains(u));
            }
            assert(final(self).watched() =~= old(self).watched().union(texts(users@).to_set()));
            assert forall|u: Seq<char>|
                final(self).needing_query().contains(u) <==> old(self).needing_query().union(
                    texts(users@).to_set().difference(old(self).watched()),
                ).contains(u) by {
                assert(listed(self.stale@, u) <==> final(self).needing_query().contains(u));
            }
            assert(final(self).needing_query() =~= old(self).needing_query().union(
                texts(users@).to_set().difference(old(self).watched()),
            ));
        }
    }

    /// Starts watching the well-formed identifiers among `users`. Those that
    /// were not watched before now need a key query; malformed entries are
    /// passed over.
    pub fn update_tracked_users(&mut self, users: &Vec<String>)
        requires
            old(self).wf(),
        ensures
            final(self).wf(),
            final(self).watched() == old(self).watched().union(accepted_among(users@)),
            final(self).needing_query() == old(self).needing_query().union(
                accepted_among(users@).difference(old(self).watched()),
            ),
    {
        let valid = valid_user_ids(users);
        proof {
            lemma_accepted_names_are_accepted_among(users@);
        }
        self.track(&valid);
    }

    /// Whether any user needs a key query.
    pub fn should_query_keys(&self) -> (b: bool)
        ensures
            b == (self.query_list().len() > 0),
    {
        self.stale.len() > 0
    }

    /// The users that need a key query. Nothing changes.
    pub fn users_for_key_query(&self) -> (out: Vec<String>)
        ensures
            texts(out@) == self.query_list(),
    {
        copy_texts(&self.stale)
    }

    /// Notes that the device list of `user` has changed: a watched user now
    /// needs a key query, any other user is passed over.
    pub fn mark_changed(&mut self, user: &String)
        requires
            old(self).wf(),
        ensures
            final(self).wf(),
            final(self).watched() == old(self).watched(),
            final(self).needing_query() == if old(self).watched().contains(user@) {
                old(self).needing_query().insert(user@)
            } else {
                old(self).needing_query()
            },
    {
        let known = find_text(&self.watched, user);
        let waiting = find_text(&self.stale, user);
        proof {
            if let Some(k) = known {
                assert(texts(self.watched@)[k as int] == user@);
            }
            if let Some(k) = waiting {
                assert(texts(self.stale@)[k as int] == user@);
            }
        }
        if known.is_some() && waiting.is_none() {
            let ghost before = self.stale@;
            self.stale.push(user.clone());
            proof {
                lemma_listed_push(before, *user, user@);
                assert forall|u: Seq<char>|
                    final(self).needing_query().contains(u) <==> old(self).needing_query().insert(
                        user@,
                    ).contains(u) by {
                    lemma_listed_push(before, *user, u);
                    assert(listed(self.stale@, u) <==> final(self).needing_query().contains(u));
                    assert(listed(before, u) <==> old(self).needing_query().contains(u));
                }
                assert(final(self).needing_query() =~= old(self).needing_query().insert(user@));
            }
        } else {
            assert(self.needing_query() =~= self.needing_query().insert(user@) || !self.watched().contains(
                user@,
            ));
        }
    }

    /// Takes the users of `answered` off the list of those that need a key
    /// query. A user that is not in `answered` goes on waiting.
    pub fn settle(&mut self, answered: &Vec<String>)
        requires
            old(self).wf(),
        ensures
            final(self).wf(),
            final(self).watched() == old(self).watched(),
            final(self).needing_query() == old(self).needing_query().difference(
                texts(answered@).to_set(),
            ),
    {
        let mut left: Vec<String> = Vec::new();
        let mut i: usize = 0;
        assert(self.stale@.take(0) =~= Seq::<String>::empty());
        while i < self.stale.len()
            invariant
                i <= self.stale.len(),
                *self == *old(self),
                self.wf(),
                texts(left@).no_duplicates(),
                forall|u: Seq<char>|
                    #![trigger listed(left@, u)]
                    listed(left@, u) <==> (listed(self.stale@.take(i as int), u) && !listed(
                        answered@,
                        u,
                    )),
            decreases self.stale.len() - i,
        {
            let ghost before = left@;
            let at = find_text(answered, &self.stale[i]);
            let ghost item = self.stale@[i as int];
            proof {
                if let Some(k) = at {
                    assert(texts(answered@)[k as int] == item@);
                }
                if listed(self.stale@.take(i as int), item@) {
                    let j = choose|j: int|
                        0 <= j < texts(self.stale@.take(i as int)).len() && texts(
                            self.stale@.take(i as int),
                        )[j] == item@;
                    assert(texts(self.stale@)[j] == item@);
                    assert(texts(self.stale@)[i as int] == item@);
                }
            }
            if at.is_none() {
                left.push(self.stale[i].clone());
            }
            proof {
                assert forall|u: Seq<char>|
                    #![trigger listed(left@, u)]
                    listed(left@, u) <==> (listed(self.stale@.take(i + 1), u) && !listed(
                        answered@,
                        u,
                    )) by {
                    lemma_listed_take(self.stale@, i as int, u);
                    if at.is_none() {
                        lemma_listed_push(before, item, u);
                    }
                    assert(listed(before, u) <==> (listed(self.stale@.take(i as int), u) && !listed(
                        answered@,
                        u,
                    )));
                }
                if at.is_none() {
                    lemma_listed_push(before, item, item@);
                    assert(!listed(before, item@));
                }
            }
            i += 1;
        }
        proof {
            assert(self.stale@.take(self.stale.len() as int) =~= self.stale@);
            assert forall|u: Seq<char>|
                texts(left@).to_set().contains(u) <==> old(self).needing_query().difference(
                    texts(answered@).to_set(),
                ).contains(u) by {
                assert(listed(left@, u) <==> texts(left@).to_set().contains(u));
            }
            assert(texts(left@).to_set() =~= old(self).needing_query().difference(
                texts(answered@).to_set(),
            ));
        }
        self.stale = left;
    }
}

} // verus!
