use mute_scheduler::registrar::{deadline_after, register, RegisterError};
use mute_scheduler::store::{set_if_later_outcome, DeadlineStore, SetOutcome};
use mute_scheduler::timestamp::decode_deadline;
use mute_scheduler::worker::UnmuteWorker;

const T0: i64 = 1_700_000_000;
const MINUTE: i64 = 60;

/// One poll cycle with a platform whose lift answers `lift_ok`; returns the
/// users whose lift was attempted.
fn poll_cycle(store: &mut DeadlineStore, now: i64, lift_ok: bool) -> Vec<u64> {
    let batch = store.list_keys();
    let due = UnmuteWorker::due_users(store, &batch, now);
    let outcomes: Vec<bool> = due.iter().map(|_| lift_ok).collect();
    UnmuteWorker::settle_all(store, &due, &outcomes);
    due
}

#[test]
fn second_registration_never_decreases_deadline() {
    let mut store = DeadlineStore::new();
    assert_eq!(register(&mut store, 1, T0, 5), Ok(T0 + 5 * MINUTE));
    assert_eq!(register(&mut store, 1, T0, 20), Ok(T0 + 20 * MINUTE));
    assert_eq!(register(&mut store, 1, T0, 10), Ok(T0 + 20 * MINUTE));
    assert_eq!(store.get(1), Some(T0 + 20 * MINUTE));
}

#[test]
fn many_registrations_keep_maximum() {
    let mut store = DeadlineStore::new();
    for d in [3u64, 17, 9, 1, 12] {
        let _ = register(&mut store, 5, T0, d);
    }
    assert_eq!(store.get(5), Some(T0 + 17 * MINUTE));
    assert_eq!(store.list_keys(), vec![5]);
}

#[test]
fn get_never_written_is_absent() {
    let mut store = DeadlineStore::new();
    assert_eq!(store.get(99), None);
    store.set_if_later(1, T0);
    assert_eq!(store.get(99), None);
}

#[test]
fn delete_absent_is_noop() {
    let mut store = DeadlineStore::new();
    store.set_if_later(1, T0);
    store.delete(2);
    assert_eq!(store.get(1), Some(T0));
    assert_eq!(store.list_keys(), vec![1]);
    store.delete(1);
    store.delete(1);
    assert_eq!(store.get(1), None);
    assert!(store.list_keys().is_empty());
}

#[test]
fn future_deadline_is_not_lifted() {
    assert!(!UnmuteWorker::is_due(Some(T0 + 1), T0));
    assert!(!UnmuteWorker::is_due(Some(T0), T0));
    assert!(UnmuteWorker::is_due(Some(T0 - 1), T0));
    assert!(!UnmuteWorker::is_due(None, T0));
}

#[test]
fn lifted_user_leaves_listing() {
    let mut store = DeadlineStore::new();
    store.set_if_later(3, T0);
    store.set_if_later(4, T0 + 100 * MINUTE);
    let lifted = poll_cycle(&mut store, T0 + MINUTE, true);
    assert_eq!(lifted, vec![3]);
    assert_eq!(store.list_keys(), vec![4]);
}

#[test]
fn failed_lift_is_retried_next_cycle() {
    let mut store = DeadlineStore::new();
    store.set_if_later(8, T0);
    assert_eq!(poll_cycle(&mut store, T0 + MINUTE, false), vec![8]);
    assert_eq!(store.get(8), Some(T0));
    assert_eq!(poll_cycle(&mut store, T0 + 2 * MINUTE, true), vec![8]);
    assert_eq!(store.get(8), None);
    assert!(store.list_keys().is_empty());
}

#[test]
fn end_to_end_lift_after_deadline() {
    let mut store = DeadlineStore::new();
    assert_eq!(register(&mut store, 42, T0, 15), Ok(T0 + 15 * MINUTE));
    assert!(poll_cycle(&mut store, T0 + 14 * MINUTE, true).is_empty());
    assert_eq!(store.get(42), Some(T0 + 15 * MINUTE));
    assert_eq!(poll_cycle(&mut store, T0 + 16 * MINUTE, true), vec![42]);
    assert_eq!(store.get(42), None);
}

#[test]
fn end_to_end_shorter_restriction_keeps_deadline() {
    let mut store = DeadlineStore::new();
    assert_eq!(register(&mut store, 7, T0, 15), Ok(T0 + 15 * MINUTE));
    assert_eq!(register(&mut store, 7, T0 + MINUTE, 5), Ok(T0 + 15 * MINUTE));
    assert_eq!(store.get(7), Some(T0 + 15 * MINUTE));
}

#[test]
fn empty_store_polls_nothing() {
    let mut store = DeadlineStore::new();
    assert!(store.list_keys().is_empty());
    assert!(poll_cycle(&mut store, T0, true).is_empty());
    assert!(UnmuteWorker::due_users(&store, &vec![1, 2], T0).is_empty());
}

#[test]
fn due_users_keeps_batch_order() {
    let mut store = DeadlineStore::new();
    store.set_if_later(10, T0 - 5);
    store.set_if_later(20, T0 + 5);
    store.set_if_later(30, T0 - 1);
    let due = UnmuteWorker::due_users(&store, &vec![30, 20, 10, 40], T0);
    assert_eq!(due, vec![30, 10]);
}

#[test]
fn settle_all_clears_only_successes() {
    let mut store = DeadlineStore::new();
    store.set_if_later(1, T0);
    store.set_if_later(2, T0);
    store.set_if_later(3, T0);
    UnmuteWorker::settle_all(&mut store, &vec![1, 2, 3], &vec![true, false, true]);
    assert_eq!(store.list_keys(), vec![2]);
}

#[test]
fn set_if_later_outcomes() {
    assert_eq!(set_if_later_outcome(None, T0), SetOutcome { write: true, effective: T0 });
    assert_eq!(set_if_later_outcome(Some(T0), T0 + 1), SetOutcome { write: true, effective: T0 + 1 });
    assert_eq!(set_if_later_outcome(Some(T0), T0), SetOutcome { write: false, effective: T0 });
    assert_eq!(set_if_later_outcome(Some(T0), T0 - 1), SetOutcome { write: false, effective: T0 });
}

#[test]
fn deadline_overflow_is_an_error() {
    let mut store = DeadlineStore::new();
    assert_eq!(deadline_after(i64::MAX - 59, 1), None);
    assert_eq!(deadline_after(i64::MAX - 60, 1), Some(i64::MAX));
    assert_eq!(deadline_after(i64::MIN, 60), Some(i64::MIN + 3600));
    assert_eq!(deadline_after(i64::MIN, u64::MAX), None);
    assert_eq!(register(&mut store, 1, i64::MAX, 1), Err(RegisterError::DeadlineOverflow));
    assert!(store.list_keys().is_empty());
}

#[test]
fn decode_deadline_skips_unrepresentable() {
    assert_eq!(decode_deadline(None), None);
    assert_eq!(decode_deadline(Some(T0)), Some(T0));
    assert_eq!(decode_deadline(Some(0)), Some(0));
    assert_eq!(decode_deadline(Some(i64::MAX)), None);
    assert_eq!(decode_deadline(Some(i64::MIN)), None);
}

#[test]
fn settle_keeps_record_on_failed_lift() {
    let mut store = DeadlineStore::new();
    store.set_if_later(11, T0);
    UnmuteWorker::settle(&mut store, 11, false);
    assert_eq!(store.get(11), Some(T0));
    UnmuteWorker::settle(&mut store, 11, true);
    assert_eq!(store.get(11), None);
}
