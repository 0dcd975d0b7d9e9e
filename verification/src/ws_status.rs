//! Status vocabulary surfaced to clients over the websocket protocol.
//!
//! A command either succeeds with [`OK`] or fails with one of the codes
//! below; the dispatcher puts the code into the response envelope.

use vstd::prelude::*;

verus! {

/// The command succeeded; the response carries the room payload.
pub const OK: u16 = 200;

/// The credential was rejected by the identity service, the requested room
/// was not found, or membership was rejected.
pub const UNAUTHORIZED: u16 = 401;

/// The identity service could not be reached (transport failure).
pub const DELEGATE_UNREACHABLE: u16 = 402;

/// A persisted room hash was present but one of its fields was missing or
/// failed to parse.
pub const CORRUPTED_ROOM: u16 = 460;

/// The request to the identity service's token-verification endpoint itself
/// failed while resolving the caller's profile.
pub const PARSE_ACCOUNT_API_RES: u16 = 461;

/// The token-verification response body could not be parsed as the expected
/// identifier envelope.
pub const PARSE_ACCOUNT_API_RES_TEXT: u16 = 462;

/// The profile body could not be fetched or parsed as a player.
pub const PLAYER_PARSE: u16 = 463;

/// Overwriting the player-list field of a persisted room failed.
pub const ROOM_UPDATE_PLAYERS: u16 = 464;

} // verus!
