//! Placing a restriction: the deadline is `now` plus the mute length, offered
//! to the store, which keeps whichever deadline is later.
use vstd::prelude::*;
use crate::store::{DeadlineStore, after_set_if_later, effective_deadline, stored_deadline};

verus! {

/// The deadline `duration_minutes` after `now`, in Unix seconds.
pub open spec fn candidate_deadline(now: i64, duration_minutes: u64) -> int {
    now + 60 * duration_minutes
}

/// Whether `x` fits in an `i64`.
pub open spec fn fits_i64(x: int) -> bool {
    i64::MIN <= x <= i64::MAX
}

/// Why a restriction could not be registered.
#[derive(Clone, Copy, Debug, PartialEq, Eq, Structural)]
pub enum RegisterError {
    /// `now` plus the duration lies beyond the largest representable deadline.
    DeadlineOverflow,
}

/// The deadline `duration_minutes` after `now`, or `None` where it does not fit.
pub fn deadline_after(now: i64, duration_minutes: u64) -> (r: Option<i64>)
    ensures
        fits_i64(candidate_deadline(now, duration_minutes)) <==> r is Some,
        r matches Some(c) ==> c == candidate_deadline(now, duration_minutes),
{
    let wide: i128 = now as i128 + (duration_minutes as i128) * 60;
    if wide < i64::MIN as i128 || wide > i64::MAX as i128 {
        None
    } else {
        Some(wide as i64)
    }
}

/// Registers a restriction of `user_id` for `duration_minutes` from `now` and
/// returns the deadline in effect, which is later than the new one where the
/// user was already restricted for longer.
pub fn register(store: &mut DeadlineStore, user_id: u64, now: i64, duration_minutes: u64) -> (r:
    Result<i64, RegisterError>)
    requires
        old(store).wf(),
    ensures
        final(store).wf(),
        fits_i64(candidate_deadline(now, duration_minutes)) ==> {
            &&& r == Ok::<i64, RegisterError>(
                effective_deadline(
                    stored_deadline(old(store)@, user_id),
                    candidate_deadline(now, duration_minutes) as i64,
                ),
            )
            &&& final(store)@ == after_set_if_later(
                old(store)@,
                user_id,
                candidate_deadline(now, duration_minutes) as i64,
            )
        },
        !fits_i64(candidate_deadline(now, duration_minutes)) ==> {
            &&& r == Err::<i64, RegisterError>(RegisterError::DeadlineOverflow)
            &&& final(store)@ == old(store)@
        },
{
    match deadline_after(now, duration_minutes) {
        Some(candidate) => Ok(store.set_if_later(user_id, candidate)),
        None => Err(RegisterError::DeadlineOverflow),
    }
}

/// Registering the same user twice leaves in effect the later of the two new
/// deadlines, or an earlier stored one where that is later still; the second
/// registration never returns less than the first.
pub proof fn lemma_register_twice_keeps_later(
    m: Map<u64, i64>,
    user_id: u64,
    now1: i64,
    d1: u64,
    now2: i64,
    d2: u64,
)
    requires
        fits_i64(candidate_deadline(now1, d1)),
        fits_i64(candidate_deadline(now2, d2)),
    ensures
        ({
            let c1 = candidate_deadline(now1, d1) as i64;
            let c2 = candidate_deadline(now2, d2) as i64;
            let e1 = effective_deadline(stored_deadline(m, user_id), c1);
            let m1 = after_set_if_later(m, user_id, c1);
            let e2 = effective_deadline(stored_deadline(m1, user_id), c2);
            &&& e2 >= e1
            &&& !m.contains_key(user_id) ==> e2 == if c1 >= c2 {
                c1
            } else {
                c2
            }
            &&& m.contains_key(user_id) ==> e2 == if m[user_id] >= c1 && m[user_id] >= c2 {
                m[user_id]
            } else if c1 >= c2 {
                c1
            } else {
                c2
            }
            &&& after_set_if_later(m1, user_id, c2)[user_id] == e2
        }),
{
}

} // verus!
