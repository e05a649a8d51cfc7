//! What a session token refers to, and when an idle room is reaped.

use crate::rng::random_below;
use crate::server::room::{RoomPhase, refused};
use crate::text::joined;
use vstd::prelude::*;

verus! {

/// Seconds of inactivity after which a lobby is removed.
pub const LOBBY_IDLE_TIMEOUT_SECS: u64 = 1800;

/// Who a session token authenticates as inside a room.
#[derive(Debug, Clone)]
pub enum SessionRef {
    Player { code: String, slot: usize },
    Spectator { code: String },
}

impl SessionRef {
    /// The code of the room the session belongs to.
    pub fn code(&self) -> (r: &str)
        ensures
            r@ == (match self {
                SessionRef::Player { code, .. } => code@,
                SessionRef::Spectator { code } => code@,
            }),
    {
        match self {
            SessionRef::Player { code, .. } => code.as_str(),
            SessionRef::Spectator { code } => code.as_str(),
        }
    }
}

/// Whether a room idle for `elapsed` seconds is removed: a finished game
/// after `game_over_timeout`; a lobby when everyone has been gone for
/// `disconnect_timeout`, or after the lobby idle limit in any case; a
/// running game when everyone has been gone for `disconnect_timeout`.
pub fn should_remove_room(
    phase: RoomPhase,
    elapsed: u64,
    all_disconnected: bool,
    game_over_timeout: u64,
    disconnect_timeout: u64,
) -> (r: bool)
    ensures
        r == match phase {
            RoomPhase::GameOver => elapsed > game_over_timeout,
            RoomPhase::Lobby => (all_disconnected && elapsed > disconnect_timeout) || elapsed
                > LOBBY_IDLE_TIMEOUT_SECS,
            RoomPhase::InGame => all_disconnected && elapsed > disconnect_timeout,
        },
{
    match phase {
        RoomPhase::GameOver => elapsed > game_over_timeout,
        RoomPhase::Lobby => (all_disconnected && elapsed > disconnect_timeout) || elapsed > LOBBY_IDLE_TIMEOUT_SECS,
        RoomPhase::InGame => all_disconnected && elapsed > disconnect_timeout,
    }
}

/// The characters room codes are made of (no 0/O or 1/I look-alikes).
pub const ROOM_CODE_ALPHABET: &'static str = "ABCDEFGHJKLMNPQRSTUVWXYZ23456789";

/// The number of characters in a room code.
pub const ROOM_CODE_LEN: usize = 6;

/// A random room code: six characters drawn from the code alphabet.
pub fn random_room_code() -> (r: String)
    ensures
        r@.len() == 6,
        forall|i: int| 0 <= i < 6 ==> ROOM_CODE_ALPHABET@.contains(#[trigger] r@[i]),
{
    proof {
        reveal_strlit("ABCDEFGHJKLMNPQRSTUVWXYZ23456789");
    }
    let mut code = String::new();
    let mut k: usize = 0;
    while k < ROOM_CODE_LEN
        invariant
            k <= ROOM_CODE_LEN == 6,
            ROOM_CODE_ALPHABET@.len() == 32,
            code@.len() == k,
            forall|i: int| 0 <= i < k ==> ROOM_CODE_ALPHABET@.contains(#[trigger] code@[i]),
        decreases ROOM_CODE_LEN - k,
    {
        let idx = random_below(32);
        let ch = ROOM_CODE_ALPHABET.substring_char(idx, idx + 1);
        let ghost before = code@;
        code = joined(code.as_str(), ch);
        proof {
            assert(code@[k as int] == ROOM_CODE_ALPHABET@[idx as int]);
            assert forall|i: int| 0 <= i < k + 1 implies ROOM_CODE_ALPHABET@.contains(#[trigger] code@[i]) by {
                if i < k {
                    assert(code@[i] == before[i]);
                } else {
                    assert(code@[i] == ROOM_CODE_ALPHABET@[idx as int]);
                }
            }
        }
        k = k + 1;
    }
    code
}

/// Whether a new room may open: 2 to 4 seats, and room left on the server.
pub fn check_new_room(num_players: usize, open_rooms: usize, max_rooms: usize) -> (r: Result<(), String>)
    ensures
        !(2 <= num_players <= 4) ==> refused(r, "Player count must be 2-4"@),
        2 <= num_players <= 4 && open_rooms >= max_rooms ==> refused(r, "Server is at maximum room capacity"@),
        2 <= num_players <= 4 && open_rooms < max_rooms ==> r is Ok,
{
    if !(2 <= num_players && num_players <= 4) {
        return Err("Player count must be 2-4".to_owned());
    }
    if open_rooms >= max_rooms {
        return Err("Server is at maximum room capacity".to_owned());
    }
    Ok(())
}

} // verus!
