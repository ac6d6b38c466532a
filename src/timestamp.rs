//! Deadlines as persisted: Unix seconds, read back through chrono so that a
//! value which names no instant counts as malformed.
use vstd::prelude::*;

verus! {

/// Whether `secs` Unix seconds name an instant that chrono's `DateTime<Utc>`
/// can represent.
pub uninterp spec fn representable_timestamp(secs: i64) -> bool;

/// Relies on chrono's `DateTime::<Utc>::from_timestamp(secs, 0)`, which returns
/// `None` exactly when `secs` lies outside the representable range (the
/// nanosecond part, zero, is always valid).
#[verifier::external_body]
fn is_representable(secs: i64) -> (r: bool)
    ensures
        r == representable_timestamp(secs),
{
    chrono::DateTime::<chrono::Utc>::from_timestamp(secs, 0).is_some()
}

/// The deadline that a persisted value stands for: absent when nothing was
/// read, and absent too when the value names no instant (malformed data is
/// skipped, not fatal).
pub open spec fn decoded_deadline(raw: Option<i64>) -> Option<i64> {
    match raw {
        Some(t) => if representable_timestamp(t) {
            Some(t)
        } else {
            None
        },
        None => None,
    }
}

/// Reads a persisted deadline; see [`decoded_deadline`].
pub fn decode_deadline(raw: Option<i64>) -> (r: Option<i64>)
    ensures
        r == decoded_deadline(raw),
{
    match raw {
        Some(t) => if is_representable(t) {
            Some(t)
        } else {
            None
        },
        None => None,
    }
}

} // verus!
