//! The configuration loaded once at start-up.
use vstd::prelude::*;

verus! {

/// Platform credential, the guild whose members are muted, the mute length in
/// minutes and the deadline store's connection string.
pub struct AppSettings {
    pub discord_token: String,
    pub guild_id: u64,
    pub mute_duration: u64,
    pub redis_url: String,
}

} // verus!
