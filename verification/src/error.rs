//! Error kinds surfaced by the core.

use vstd::prelude::*;

verus! {

/// Every failure the core reports. Transport errors of outside collaborators
/// are wrapped by the surrounding program, not here.
#[derive(Debug)]
pub enum AlastorError {
    /// No station in the catalog matched the query.
    StationNotFound { name: String },
    /// No playable URL could be extracted for the station.
    StreamUnavailable { url: String },
    /// The requesting user is not in a voice channel.
    UserNotInVoice,
    /// The bot has no voice connection for the guild.
    BotNotConnected,
    /// The caller must wait before issuing more requests.
    RateLimit { seconds: u64 },
    /// The guild has not completed setup.
    SetupIncomplete { guild_id: u64 },
}

} // verus!
