//! Messages between the server and its clients, and the HTTP request and
//! response bodies.

use crate::interactive::{PlayerAction, PlayerView};
use vstd::prelude::*;

verus! {

/// Client → server messages.
#[derive(Debug, Clone)]
pub enum ClientMessage {
    ConfigureSlot { slot: usize, player_type: String },
    SetNumPlayers { num_players: usize },
    SetRules { rules: String },
    KickPlayer { slot: usize },
    PromoteHost { slot: usize },
    SetTurnTimer { secs: Option<u64> },
    StartGame,
    Action { action: PlayerAction },
    PlayAgain,
    ReturnToLobby,
    Ping,
}

/// Server → client messages.
#[allow(inconsistent_fields)]
#[derive(Debug, Clone)]
pub enum ServerMessage {
    RoomState { state: RoomLobbyState },
    GameState { state: PlayerView, turn_deadline_secs: Option<u64> },
    ActionApplied { player: usize, action: PlayerAction, state: PlayerView, turn_deadline_secs: Option<u64> },
    BotAction { player: usize, action: PlayerAction, state: PlayerView, turn_deadline_secs: Option<u64> },
    TimeoutAction { player: usize, action: PlayerAction, state: PlayerView },
    PlayerJoined { player_index: usize, name: String },
    PlayerLeft { player_index: usize },
    PlayerReconnected { player_index: usize },
    Kicked { reason: String },
    Error { code: String, message: String },
    Pong,
}

/// Who occupies a seat.
#[derive(Debug, Clone)]
pub enum PlayerSlotType {
    Human,
    Bot { strategy: String },
    Empty,
}

#[derive(Debug, Clone)]
pub struct LobbyPlayer {
    pub slot: usize,
    pub name: String,
    pub player_type: PlayerSlotType,
    pub connected: bool,
    /// Seconds since the occupant disconnected, if they are away.
    pub disconnect_secs: Option<u64>,
}

#[derive(Debug, Clone)]
pub struct RoomLobbyState {
    pub room_code: String,
    pub phase: String,
    pub players: Vec<LobbyPlayer>,
    pub num_players: usize,
    pub rules: String,
    pub creator: usize,
    pub available_strategies: Vec<String>,
    pub available_rules: Vec<String>,
    pub idle_timeout_secs: Option<u64>,
    pub turn_timer_secs: Option<u64>,
    pub last_winners: Vec<usize>,
}

#[derive(Debug, Clone)]
pub struct CreateRoomRequest {
    pub player_name: String,
    pub num_players: usize,
    pub rules: Option<String>,
}

#[derive(Debug, Clone)]
pub struct CreateRoomResponse {
    pub room_code: String,
    pub session_token: String,
    pub player_index: usize,
}

#[derive(Debug, Clone)]
pub struct JoinRoomRequest {
    pub player_name: String,
}

#[derive(Debug, Clone)]
pub struct JoinRoomResponse {
    pub session_token: String,
    pub player_index: usize,
}

#[derive(Debug, Clone)]
pub struct RoomInfoResponse {
    pub room_code: String,
    pub num_players: usize,
    pub rules: String,
    pub players_joined: usize,
    pub phase: String,
}

#[derive(Debug, Clone)]
pub struct MetaResponse {
    pub available_rules: Vec<String>,
    pub available_strategies: Vec<String>,
}

} // verus!
