//! Schedules the automatic lifting of temporary mutes: deadlines are stored
//! per user, only ever extended, and reconciled against the clock by a worker
//! that lifts each expired mute and clears its record once the lift succeeded.
pub mod registrar;
pub mod settings;
pub mod store;
pub mod timestamp;
pub mod worker;
