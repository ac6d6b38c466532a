//! The deadline store: at most one pending restoration deadline per user,
//! kept as Unix seconds, whose deadlines only ever move later.
use vstd::prelude::*;

verus! {

/// The deadline in effect once `candidate` has been offered to a key whose
/// current deadline is `current`. An absent record counts as earlier than every
/// deadline; otherwise the later of the two wins, so a deadline never shrinks.
pub open spec fn effective_deadline(current: Option<i64>, candidate: i64) -> i64 {
    match current {
        None => candidate,
        Some(t) => if candidate > t {
            candidate
        } else {
            t
        },
    }
}

/// Whether offering `candidate` to a key whose current deadline is `current`
/// writes it: only when nothing is stored or the candidate is strictly later.
pub open spec fn overwrites(current: Option<i64>, candidate: i64) -> bool {
    match current {
        None => true,
        Some(t) => candidate > t,
    }
}

/// The deadline that `m` holds for `user_id`, if any.
pub open spec fn stored_deadline(m: Map<u64, i64>, user_id: u64) -> Option<i64> {
    if m.contains_key(user_id) {
        Some(m[user_id])
    } else {
        None
    }
}

/// The contents of the store after `set_if_later(user_id, candidate)`.
pub open spec fn after_set_if_later(m: Map<u64, i64>, user_id: u64, candidate: i64) -> Map<
    u64,
    i64,
> {
    m.insert(user_id, effective_deadline(stored_deadline(m, user_id), candidate))
}

/// What the compare step of set-if-later decided: whether to write the
/// candidate, and the deadline in effect afterwards.
#[derive(Clone, Copy, Debug, PartialEq, Eq, Structural)]
pub struct SetOutcome {
    pub write: bool,
    pub effective: i64,
}

/// The compare step of set-if-later, shared by every store that runs it inside
/// its own atomic read-compare-write.
pub fn set_if_later_outcome(current: Option<i64>, candidate: i64) -> (r: SetOutcome)
    ensures
        r.write == overwrites(current, candidate),
        r.effective == effective_deadline(current, candidate),
{
    match current {
        None => SetOutcome { write: true, effective: candidate },
        Some(t) => if candidate > t {
            SetOutcome { write: true, effective: candidate }
        } else {
            SetOutcome { write: false, effective: t }
        },
    }
}

/// The store after `set_if_later(user_id, c)` for each `c` of `candidates`, in order.
pub open spec fn after_each_set_if_later(m: Map<u64, i64>, user_id: u64, candidates: Seq<i64>) -> Map<
    u64,
    i64,
>
    decreases candidates.len(),
{
    if candidates.len() == 0 {
        m
    } else {
        after_set_if_later(
            after_each_set_if_later(m, user_id, candidates.drop_last()),
            user_id,
            candidates.last(),
        )
    }
}

/// However many set-if-later calls reach one key, and in whichever order the
/// store serialises them, it ends up holding the latest of their candidates
/// (or the earlier stored deadline, if that is later still): no write is lost,
/// no deadline shrinks, and no other key changes.
pub proof fn lemma_set_if_later_keeps_latest(m: Map<u64, i64>, user_id: u64, candidates: Seq<i64>)
    requires
        candidates.len() > 0,
    ensures
        ({
            let r = after_each_set_if_later(m, user_id, candidates);
            &&& r.contains_key(user_id)
            &&& forall|i: int| 0 <= i < candidates.len() ==> r[user_id] >= #[trigger] candidates[i]
            &&& m.contains_key(user_id) ==> r[user_id] >= m[user_id]
            &&& (exists|i: int| 0 <= i < candidates.len() && r[user_id] == candidates[i]) || (
            m.contains_key(user_id) && r[user_id] == m[user_id])
            &&& r.remove(user_id) == m.remove(user_id)
        }),
    decreases candidates.len(),
{
    let r = after_each_set_if_later(m, user_id, candidates);
    let last = candidates.last();
    let n = candidates.len() - 1;
    let init = candidates.drop_last();
    if candidates.len() == 1 {
        assert(init.len() == 0);
        assert(after_each_set_if_later(m, user_id, init) == m);
        assert(r == after_set_if_later(m, user_id, last));
        assert(candidates[n] == last);
        assert(candidates[0] == last);
        assert(m.insert(user_id, r[user_id]).remove(user_id) =~= m.remove(user_id));
        if r[user_id] == last {
            assert(0 <= n < candidates.len() && r[user_id] == candidates[n]);
        }
    } else {
        lemma_set_if_later_keeps_latest(m, user_id, init);
        let p = after_each_set_if_later(m, user_id, init);
        assert(r == after_set_if_later(p, user_id, last));
        assert forall|i: int| 0 <= i < candidates.len() implies r[user_id]
            >= #[trigger] candidates[i] by {
            if i < n {
                assert(init[i] == candidates[i]);
            }
        }
        if r[user_id] == last {
            assert(candidates[n] == last);
            assert(0 <= n < candidates.len() && r[user_id] == candidates[n]);
        } else {
            assert(r[user_id] == p[user_id]);
            if exists|i: int| 0 <= i < init.len() && p[user_id] == init[i] {
                let i = choose|i: int| 0 <= i < init.len() && p[user_id] == init[i];
                assert(candidates[i] == init[i]);
                assert(0 <= i < candidates.len() && r[user_id] == candidates[i]);
            }
        }
        assert(r.remove(user_id) =~= p.remove(user_id));
    }
}

/// Two set-if-later calls on one key leave the same store in either order.
pub proof fn lemma_set_if_later_order_irrelevant(m: Map<u64, i64>, user_id: u64, a: i64, b: i64)
    ensures
        after_set_if_later(after_set_if_later(m, user_id, a), user_id, b) == after_set_if_later(
            after_set_if_later(m, user_id, b),
            user_id,
            a,
        ),
{
    assert(after_set_if_later(after_set_if_later(m, user_id, a), user_id, b) =~= after_set_if_later(
        after_set_if_later(m, user_id, b),
        user_id,
        a,
    ));
}

/// A key that was never written reads as absent: an empty store holds it not,
/// and writing or deleting other keys does not create it.
pub proof fn lemma_unwritten_key_absent(m: Map<u64, i64>, user_id: u64, other: u64, candidate: i64)
    requires
        !m.contains_key(user_id),
        other != user_id,
    ensures
        stored_deadline(Map::<u64, i64>::empty(), user_id) is None,
        stored_deadline(m, user_id) is None,
        stored_deadline(after_set_if_later(m, other, candidate), user_id) is None,
        stored_deadline(m.remove(other), user_id) is None,
{
}

/// Deleting a key that has no record leaves the store as it was.
pub proof fn lemma_delete_absent_unchanged(m: Map<u64, i64>, user_id: u64)
    requires
        !m.contains_key(user_id),
    ensures
        m.remove(user_id) == m,
{
    assert(m.remove(user_id) =~= m);
}

/// An in-process deadline store, keyed by user id.
pub struct DeadlineStore {
    entries: Vec<(u64, i64)>,
    model: Ghost<Map<u64, i64>>,
}

impl View for DeadlineStore {
    type V = Map<u64, i64>;

    closed spec fn view(&self) -> Map<u64, i64> {
        self.model@
    }
}

impl DeadlineStore {
    /// Each user id appears in at most one entry, and the entries hold exactly
    /// the records of the store's contents.
    pub closed spec fn wf(&self) -> bool {
        &&& forall|i: int, j: int|
            0 <= i < self.entries.len() && 0 <= j < self.entries.len() && i != j
                ==> #[trigger] self.entries@[i].0 != #[trigger] self.entries@[j].0
        &&& forall|i: int|
            0 <= i < self.entries.len() ==> {
                &&& self.model@.contains_key(#[trigger] self.entries@[i].0)
                &&& self.model@[self.entries@[i].0] == self.entries@[i].1
            }
        &&& forall|k: u64|
            #[trigger] self.model@.contains_key(k) ==> exists|i: int|
                0 <= i < self.entries.len() && #[trigger] self.entries@[i].0 == k
    }

    /// An empty store.
    pub fn new() -> (r: Self)
        ensures
            r.wf(),
            r@ == Map::<u64, i64>::empty(),
    {
        DeadlineStore { entries: Vec::new(), model: Ghost(Map::empty()) }
    }

    /// The position of `user_id` among the entries, if it has one.
    fn find(&self, user_id: u64) -> (r: Option<usize>)
        requires
            self.wf(),
        ensures
            self@.contains_key(user_id) == r is Some,
            r matches Some(i) ==> {
                &&& i < self.entries.len()
                &&& self.entries@[i as int].0 == user_id
                &&& self.entries@[i as int].1 == self@[user_id]
            },
    {
        let mut i: usize = 0;
        while i < self.entries.len()
            invariant
                self.wf(),
                i <= self.entries.len(),
                forall|j: int| 0 <= j < i ==> #[trigger] self.entries@[j].0 != user_id,
            decreases self.entries.len() - i,
        {
            if self.entries[i].0 == user_id {
                proof {
                    assert(self.model@.contains_key(self.entries@[i as int].0));
                }
                return Some(i);
            }
            i = i + 1;
        }
        None
    }

    /// The deadline stored for `user_id`; absent for a key never written or
    /// already deleted.
    pub fn get(&self, user_id: u64) -> (r: Option<i64>)
        requires
            self.wf(),
        ensures
            r == stored_deadline(self@, user_id),
    {
        match self.find(user_id) {
            Some(i) => Some(self.entries[i].1),
            None => None,
        }
    }

    /// Writes `candidate` for `user_id` only where it is strictly later than
    /// the stored deadline (or nothing is stored), and returns the deadline now
    /// in effect. A deadline is never shortened.
    pub fn set_if_later(&mut self, user_id: u64, candidate: i64) -> (r: i64)
        requires
            old(self).wf(),
        ensures
            final(self).wf(),
            r == effective_deadline(stored_deadline(old(self)@, user_id), candidate),
            final(self)@ == after_set_if_later(old(self)@, user_id, candidate),
    {
        let current = self.get(user_id);
        let outcome = set_if_later_outcome(current, candidate);
        match self.find(user_id) {
            Some(i) => {
                if outcome.write {
                    self.entries.set(i, (user_id, candidate));
                }
                proof {
                    self.model@ = self.model@.insert(user_id, outcome.effective);
                    assert(self.model@ =~= after_set_if_later(old(self)@, user_id, candidate));
                    assert forall|j: int| 0 <= j < self.entries.len() implies {
                        &&& self.model@.contains_key(#[trigger] self.entries@[j].0)
                        &&& self.model@[self.entries@[j].0] == self.entries@[j].1
                    } by {
                        if j != i {
                            assert(self.entries@[j] == old(self).entries@[j]);
                        }
                    }
                    assert forall|k: u64| #[trigger] self.model@.contains_key(k) implies exists|
                        j: int,
                    |
                        0 <= j < self.entries.len() && #[trigger] self.entries@[j].0 == k by {
                        if k != user_id {
                            let j = choose|j: int|
                                0 <= j < old(self).entries.len() && #[trigger] old(
                                    self,
                                ).entries@[j].0 == k;
                            assert(self.entries@[j].0 == k);
                        } else {
                            assert(self.entries@[i as int].0 == k);
                        }
                    }
                }
            },
            None => {
                self.entries.push((user_id, candidate));
                proof {
                    self.model@ = self.model@.insert(user_id, candidate);
                    let n = self.entries.len() - 1;
                    assert(self.entries@[n as int].0 == user_id);
                    assert forall|k: u64| #[trigger] self.model@.contains_key(k) implies exists|
                        j: int,
                    |
                        0 <= j < self.entries.len() && #[trigger] self.entries@[j].0 == k by {
                        if k != user_id {
                            let j = choose|j: int|
                                0 <= j < old(self).entries.len() && #[trigger] old(
                                    self,
                                ).entries@[j].0 == k;
                            assert(self.entries@[j].0 == k);
                        } else {
                            assert(self.entries@[n as int].0 == k);
                        }
                    }
                }
            },
        }
        outcome.effective
    }

    /// Removes the record of `user_id`. Deleting an absent key is no error and
    /// changes nothing.
    pub fn delete(&mut self, user_id: u64)
        requires
            old(self).wf(),
        ensures
            final(self).wf(),
            final(self)@ == old(self)@.remove(user_id),
    {
        match self.find(user_id) {
            Some(i) => {
                let ghost before = self.entries@;
                self.entries.remove(i);
                proof {
                    self.model@ = self.model@.remove(user_id);
                    assert(forall|j: int|
                        0 <= j < self.entries.len() ==> #[trigger] self.entries@[j] == if j
                            < i {
                            before[j]
                        } else {
                            before[j + 1]
                        });
                    assert forall|k: u64| #[trigger] self.model@.contains_key(k) implies exists|
                        j: int,
                    |
                        0 <= j < self.entries.len() && #[trigger] self.entries@[j].0 == k by {
                        let j = choose|j: int|
                            0 <= j < before.len() && #[trigger] before[j].0 == k;
                        if j < i {
                            assert(self.entries@[j].0 == k);
                        } else {
                            assert(self.entries@[j - 1].0 == k);
                        }
                    }
                }
            },
            None => {
                proof {
                    assert(self.model@.remove(user_id) =~= self.model@);
                }
            },
        }
    }

    /// Every user id that has a record, each once, in no particular order.
    pub fn list_keys(&self) -> (r: Vec<u64>)
        requires
            self.wf(),
        ensures
            r@.no_duplicates(),
            forall|k: u64| r@.contains(k) <==> self@.contains_key(k),
    {
        let mut r: Vec<u64> = Vec::new();
        let mut i: usize = 0;
        while i < self.entries.len()
            invariant
                self.wf(),
                i <= self.entries.len(),
                r@.len() == i,
                forall|j: int| 0 <= j < i ==> #[trigger] r@[j] == self.entries@[j].0,
            decreases self.entries.len() - i,
        {
            r.push(self.entries[i].0);
            i = i + 1;
        }
        proof {
            assert forall|k: u64| r@.contains(k) <==> self@.contains_key(k) by {
                if self@.contains_key(k) {
                    let j = choose|j: int|
                        0 <= j < self.entries.len() && #[trigger] self.entries@[j].0 == k;
                    assert(r@[j] == k);
                }
            }
        }
        r
    }
}

} // verus!
