//! The reconciliation worker's decisions: which users of a polled batch are
//! due for restoration, and which records to clear once the lifts were tried.
//! Lifting itself is a call to the platform, made by the caller between the
//! two steps.
use vstd::prelude::*;
use crate::store::{DeadlineStore, stored_deadline};

verus! {

/// A user whose stored deadline is `stored` is due at `now` when a deadline
/// is stored and it has passed.
pub open spec fn due(stored: Option<i64>, now: i64) -> bool {
    match stored {
        Some(t) => t < now,
        None => false,
    }
}

/// The users of `batch`, in batch order, that are due at `now` in store `m`.
pub open spec fn due_in(batch: Seq<u64>, m: Map<u64, i64>, now: i64) -> Seq<u64> {
    batch.filter(|u: u64| due(stored_deadline(m, u), now))
}

/// The users whose lift succeeded, given the users tried and each outcome.
pub open spec fn lifted_users(tried: Seq<u64>, lifted: Seq<bool>) -> Set<u64> {
    Set::new(|u: u64| exists|i: int| 0 <= i < tried.len() && tried[i] == u && lifted[i])
}

/// The store after the records of every successfully lifted user are cleared.
pub open spec fn after_settle(m: Map<u64, i64>, tried: Seq<u64>, lifted: Seq<bool>) -> Map<
    u64,
    i64,
> {
    m.remove_keys(lifted_users(tried, lifted))
}

/// No user whose deadline is still strictly ahead is ever picked for a lift.
pub proof fn lemma_future_deadline_not_lifted(batch: Seq<u64>, m: Map<u64, i64>, now: i64, user_id: u64)
    requires
        m.contains_key(user_id),
        m[user_id] > now,
    ensures
        !due_in(batch, m, now).contains(user_id),
{
    let p = |u: u64| due(stored_deadline(m, u), now);
    if due_in(batch, m, now).contains(user_id) {
        let i = choose|i: int| 0 <= i < batch.filter(p).len() && batch.filter(p)[i] == user_id;
        batch.lemma_filter_pred(p, i);
    }
}

/// Once the lift of a user succeeded, the settled store holds no record of
/// them, so later key listings leave them out.
pub proof fn lemma_lifted_record_cleared(m: Map<u64, i64>, tried: Seq<u64>, lifted: Seq<bool>, i: int)
    requires
        tried.len() == lifted.len(),
        0 <= i < tried.len(),
        lifted[i],
    ensures
        !after_settle(m, tried, lifted).contains_key(tried[i]),
{
    assert(lifted_users(tried, lifted).contains(tried[i]));
}

/// A failed lift keeps the record with its deadline, the next poll finds the
/// user due again, and the record goes only once a later lift succeeds.
pub proof fn lemma_failed_lift_retried(
    m: Map<u64, i64>,
    user_id: u64,
    now1: i64,
    tried1: Seq<u64>,
    lifted1: Seq<bool>,
    batch2: Seq<u64>,
    now2: i64,
    tried2: Seq<u64>,
    lifted2: Seq<bool>,
)
    requires
        tried1.len() == lifted1.len(),
        tried2.len() == lifted2.len(),
        due(stored_deadline(m, user_id), now1),
        forall|j: int| 0 <= j < tried1.len() && #[trigger] tried1[j] == user_id ==> !lifted1[j],
        now1 <= now2,
        batch2.contains(user_id),
        exists|j: int| 0 <= j < tried2.len() && tried2[j] == user_id && lifted2[j],
    ensures
        ({
            let m1 = after_settle(m, tried1, lifted1);
            let m2 = after_settle(m1, tried2, lifted2);
            &&& stored_deadline(m1, user_id) == stored_deadline(m, user_id)
            &&& due_in(batch2, m1, now2).contains(user_id)
            &&& !m2.contains_key(user_id)
        }),
{
    let m1 = after_settle(m, tried1, lifted1);
    assert(!lifted_users(tried1, lifted1).contains(user_id));
    assert(m1.contains_key(user_id) && m1[user_id] == m[user_id]);
    let p = |u: u64| due(stored_deadline(m1, u), now2);
    let k = choose|k: int| 0 <= k < batch2.len() && batch2[k] == user_id;
    batch2.lemma_filter_contains(p, k);
    let j = choose|j: int| 0 <= j < tried2.len() && tried2[j] == user_id && lifted2[j];
    lemma_lifted_record_cleared(m1, tried2, lifted2, j);
}

/// A poll over an empty store picks nobody for a lift.
pub proof fn lemma_empty_store_lifts_nobody(batch: Seq<u64>, now: i64)
    ensures
        due_in(batch, Map::<u64, i64>::empty(), now) == Seq::<u64>::empty(),
{
    let m = Map::<u64, i64>::empty();
    let p = |u: u64| due(stored_deadline(m, u), now);
    if batch.filter(p).len() > 0 {
        batch.lemma_filter_pred(p, 0);
    }
    assert(batch.filter(p) =~= Seq::<u64>::empty());
}

/// Restores muted users whose deadline has passed.
pub struct UnmuteWorker;

impl UnmuteWorker {
    /// Whether a user whose stored deadline is `stored` is to be lifted at
    /// `now`: never while the deadline is still ahead, nor without a record.
    pub fn is_due(stored: Option<i64>, now: i64) -> (r: bool)
        ensures
            r == due(stored, now),
    {
        match stored {
            Some(t) => t < now,
            None => false,
        }
    }

    /// The users of a polled batch to lift at `now`: those with a stored
    /// deadline that has passed, in batch order.
    pub fn due_users(store: &DeadlineStore, batch: &Vec<u64>, now: i64) -> (r: Vec<u64>)
        requires
            store.wf(),
        ensures
            r@ == due_in(batch@, store@, now),
            forall|i: int| 0 <= i < r@.len() ==> due(stored_deadline(store@, #[trigger] r@[i]), now),
    {
        let mut r: Vec<u64> = Vec::new();
        let mut i: usize = 0;
        while i < batch.len()
            invariant
                store.wf(),
                i <= batch.len(),
                r@ == due_in(batch@.subrange(0, i as int), store@, now),
            decreases batch.len() - i,
        {
            let user_id = batch[i];
            let stored = store.get(user_id);
            if Self::is_due(stored, now) {
                r.push(user_id);
            }
            proof {
                let pre = batch@.subrange(0, i as int);
                let next = batch@.subrange(0, i + 1);
                assert(next =~= pre.push(user_id));
                pre.lemma_filter_push(user_id, |u: u64| due(stored_deadline(store@, u), now));
            }
            i = i + 1;
        }
        proof {
            assert(batch@.subrange(0, batch@.len() as int) =~= batch@);
            let p = |u: u64| due(stored_deadline(store@, u), now);
            assert forall|i: int| 0 <= i < r@.len() implies due(
                stored_deadline(store@, #[trigger] r@[i]),
                now,
            ) by {
                batch@.lemma_filter_pred(p, i);
            }
        }
        r
    }

    /// Clears the record of `user_id` where its lift succeeded; a failed lift
    /// leaves the record for the next poll to try again.
    pub fn settle(store: &mut DeadlineStore, user_id: u64, lifted: bool)
        requires
            old(store).wf(),
        ensures
            final(store).wf(),
            final(store)@ == if lifted {
                old(store)@.remove(user_id)
            } else {
                old(store)@
            },
    {
        if lifted {
            store.delete(user_id);
        }
    }

    /// Settles a whole cycle: `lifted[i]` is whether lifting `tried[i]`
    /// succeeded. Exactly the records of successfully lifted users go.
    pub fn settle_all(store: &mut DeadlineStore, tried: &Vec<u64>, lifted: &Vec<bool>)
        requires
            old(store).wf(),
            tried.len() == lifted.len(),
        ensures
            final(store).wf(),
            final(store)@ == after_settle(old(store)@, tried@, lifted@),
    {
        let ghost start = store@;
        let mut i: usize = 0;
        while i < tried.len()
            invariant
                store.wf(),
                i <= tried.len(),
                tried.len() == lifted.len(),
                store@ == after_settle(
                    start,
                    tried@.subrange(0, i as int),
                    lifted@.subrange(0, i as int),
                ),
            decreases tried.len() - i,
        {
            Self::settle(store, tried[i], lifted[i]);
            proof {
                let t0 = tried@.subrange(0, i as int);
                let l0 = lifted@.subrange(0, i as int);
                let t1 = tried@.subrange(0, i + 1);
                let l1 = lifted@.subrange(0, i + 1);
                assert forall|u: u64| lifted_users(t1, l1).contains(u) <==> (lifted_users(
                    t0,
                    l0,
                ).contains(u) || (u == tried@[i as int] && lifted@[i as int])) by {
                    if lifted_users(t0, l0).contains(u) {
                        let j = choose|j: int| 0 <= j < t0.len() && t0[j] == u && l0[j];
                        assert(t1[j] == u && l1[j]);
                    }
                    if u == tried@[i as int] && lifted@[i as int] {
                        assert(t1[i as int] == u && l1[i as int]);
                    }
                    if lifted_users(t1, l1).contains(u) {
                        let j = choose|j: int| 0 <= j < t1.len() && t1[j] == u && l1[j];
                        if j < i {
                            assert(t0[j] == u && l0[j]);
                        }
                    }
                }
                assert(store@ =~= after_settle(start, t1, l1));
            }
            i = i + 1;
        }
        proof {
            assert(tried@.subrange(0, tried@.len() as int) =~= tried@);
            assert(lifted@.subrange(0, lifted@.len() as int) =~= lifted@);
        }
    }
}

} // verus!
