//! What the server does with each message from a seated player.

use crate::server::messages::{ClientMessage, ServerMessage};
use crate::server::room::{Room, RoomPhase, seat_to_move};
use crate::text::joined;
use vstd::prelude::*;

verus! {

/// What the connection should do next, once the message is handled.
#[derive(Debug, Clone, Copy, PartialEq, Eq, Structural)]
pub enum FollowUp {
    /// Nothing more to do.
    Idle,
    /// The seat to move is a bot: play bot turns.
    RunBots,
    /// The seat to move is a human: watch their turn clock.
    WatchTurnTimer,
}

/// The result of handling one message from a seated player.
#[derive(Debug, Clone)]
pub struct PlayerOutcome {
    /// A message for the sender alone.
    pub reply: Option<ServerMessage>,
    /// A session that no longer holds a seat and should be forgotten.
    pub expired_token: Option<String>,
    pub follow_up: FollowUp,
}

/// `m` is the error message with `code` and text `message`.
pub open spec fn is_error(m: ServerMessage, code: Seq<char>, message: Seq<char>) -> bool {
    m matches ServerMessage::Error { code: c, message: t } && c@ == code && t@ == message
}

/// The error a non-host gets for trying `action`.
pub fn not_creator(action: &str) -> (r: ServerMessage)
    ensures
        is_error(r, "not_creator"@, "Only the room creator can "@ + action@),
{
    ServerMessage::Error { code: "not_creator".to_owned(), message: joined("Only the room creator can ", action) }
}

/// An error message with `code`.
pub fn err(code: &str, message: String) -> (r: ServerMessage)
    ensures
        is_error(r, code@, message@),
{
    ServerMessage::Error { code: code.to_owned(), message }
}

/// The message kinds only the host may send, and what the refusal names.
pub open spec fn host_only(msg: ClientMessage) -> Option<Seq<char>> {
    match msg {
        ClientMessage::ConfigureSlot { .. } => Some("configure slots"@),
        ClientMessage::SetRules { .. } => Some("change rules"@),
        ClientMessage::SetNumPlayers { .. } => Some("change player count"@),
        ClientMessage::KickPlayer { .. } => Some("kick players"@),
        ClientMessage::PromoteHost { .. } => Some("promote players"@),
        ClientMessage::SetTurnTimer { .. } => Some("change the turn timer"@),
        ClientMessage::StartGame => Some("start the game"@),
        ClientMessage::PlayAgain => Some("restart the game"@),
        _ => None,
    }
}

/// The error code a refused request of this kind is answered with.
pub open spec fn error_code(msg: ClientMessage) -> Seq<char> {
    match msg {
        ClientMessage::ConfigureSlot { .. } => "configure_error"@,
        ClientMessage::SetRules { .. } => "set_rules_error"@,
        ClientMessage::SetNumPlayers { .. } => "set_players_error"@,
        ClientMessage::KickPlayer { .. } => "kick_error"@,
        ClientMessage::PromoteHost { .. } => "promote_error"@,
        ClientMessage::SetTurnTimer { .. } => "set_timer_error"@,
        ClientMessage::StartGame => "start_error"@,
        ClientMessage::Action { .. } => "action_error"@,
        ClientMessage::PlayAgain => "play_again_error"@,
        ClientMessage::ReturnToLobby => "return_error"@,
        _ => ""@,
    }
}

/// Where play goes once `room` has started or moved on: bot turns when a
/// bot is to move, the turn clock otherwise.
pub open spec fn follow_up_for(room: &Room) -> FollowUp {
    if seat_to_move(room.game) is Some && room.players@[seat_to_move(room.game)->Some_0 as int].slot_type is Bot {
        FollowUp::RunBots
    } else {
        FollowUp::WatchTurnTimer
    }
}

/// A refused request: the room is as the operation left it (unchanged),
/// and the sender alone is told why, with `code`.
pub open spec fn refusal_answer(mid: &Room, after: &Room, code: Seq<char>, message: Seq<char>, r: PlayerOutcome) -> bool {
    &&& *after == *mid
    &&& r.reply is Some
    &&& is_error(r.reply->Some_0, code, message)
    &&& r.expired_token is None
    &&& r.follow_up == FollowUp::Idle
}

/// The answer to a lobby request whose operation answered `res`: on
/// success the lobby is announced to every listener and the sender gets
/// nothing more; on refusal the sender gets the operation's message.
pub open spec fn lobby_answer(mid: &Room, after: &Room, res: Result<(), String>, code: Seq<char>, now: u64, r: PlayerOutcome) -> bool {
    match res {
        Ok(_) => Room::lobby_broadcast(mid, after, now) && r.reply is None && r.expired_token is None && r.follow_up
            == FollowUp::Idle,
        Err(e) => refusal_answer(mid, after, code, e@, r),
    }
}

impl Room {
    /// Where play goes after a move or a start: bot turns when a bot is to
    /// move, the turn clock otherwise.
    fn next_follow_up(&self) -> (r: FollowUp)
        requires
            self.wf(),
        ensures
            r == follow_up_for(self),
    {
        if self.is_current_player_bot() {
            FollowUp::RunBots
        } else {
            FollowUp::WatchTurnTimer
        }
    }

    /// Handles `msg` from the player in seat `player_index` at `now`.
    ///
    /// A ping is answered with a pong. Requests only the host may make are
    /// refused with `not_creator` when someone else sends them, and change
    /// nothing. Otherwise the matching room operation runs; when it refuses,
    /// the sender gets an error with the operation's message; when it
    /// succeeds, the lobby or the game is announced to every listener.
    #[verifier::rlimit(40)]
    #[verifier::spinoff_prover]
    pub fn handle_player_message(&mut self, player_index: usize, msg: ClientMessage, now: u64) -> (r: PlayerOutcome)
        requires
            old(self).wf(),
        ensures
            final(self).wf(),
            msg is Ping ==> r.reply == Some(ServerMessage::Pong) && r.follow_up == FollowUp::Idle && *final(self)
                == *old(self),
            host_only(msg) is Some && player_index != old(self).creator ==> r.reply is Some && is_error(
                r.reply->Some_0,
                "not_creator"@,
                "Only the room creator can "@ + host_only(msg)->Some_0,
            ) && r.follow_up == FollowUp::Idle && r.expired_token is None && *final(self) == *old(self),
            r.reply is Some && !(msg is Ping) && !(host_only(msg) is Some && player_index != old(self).creator)
                ==> r.reply->Some_0 is Error && r.reply->Some_0->Error_code@ == error_code(msg) && r.follow_up
                == FollowUp::Idle,
            r.expired_token is Some ==> msg is KickPlayer && player_index == old(self).creator,
            r.follow_up != FollowUp::Idle ==> (msg is StartGame || msg is Action) && r.reply is None
                && final(self).phase != RoomPhase::Lobby,
            msg is ConfigureSlot && player_index == old(self).creator
                ==> exists|mid: Room, res: Result<(), String>|
                #[trigger] Room::slot_configured(old(self), &mid, msg->ConfigureSlot_slot, msg->ConfigureSlot_player_type@, now, res) && lobby_answer(
                    &mid,
                    final(self),
                    res,
                    "configure_error"@,
                    now,
                    r,
                ),
            msg is SetRules && player_index == old(self).creator ==> exists|
                mid: Room,
                res: Result<(), String>,
            |
                #[trigger] Room::rules_set(old(self), &mid, msg->SetRules_rules@, now, res) && lobby_answer(
                    &mid,
                    final(self),
                    res,
                    "set_rules_error"@,
                    now,
                    r,
                ),
            msg is SetNumPlayers && player_index == old(self).creator ==> exists|
                mid: Room,
                res: Result<(), String>,
            |
                #[trigger] Room::player_count_set(old(self), &mid, msg->SetNumPlayers_num_players, now, res) && lobby_answer(
                    &mid,
                    final(self),
                    res,
                    "set_players_error"@,
                    now,
                    r,
                ),
            msg is KickPlayer && player_index == old(self).creator ==> exists|
                mid: Room,
                res: Result<Option<String>, String>,
            |
                #[trigger] Room::player_kicked(old(self), &mid, msg->KickPlayer_slot, now, res) && match res {
                    Ok(t) => Room::lobby_broadcast(&mid, final(self), now) && r.reply is None && r.expired_token == t
                        && r.follow_up == FollowUp::Idle,
                    Err(e) => refusal_answer(&mid, final(self), "kick_error"@, e@, r),
                },
            msg is PromoteHost && player_index == old(self).creator ==> exists|
                mid: Room,
                res: Result<(), String>,
            |
                #[trigger] Room::host_promoted(old(self), &mid, msg->PromoteHost_slot, now, res) && lobby_answer(
                    &mid,
                    final(self),
                    res,
                    "promote_error"@,
                    now,
                    r,
                ),
            msg is SetTurnTimer && player_index == old(self).creator ==> exists|
                mid: Room,
                res: Result<(), String>,
            |
                #[trigger] Room::turn_timer_set(old(self), &mid, msg->SetTurnTimer_secs, now, res) && lobby_answer(
                    &mid,
                    final(self),
                    res,
                    "set_timer_error"@,
                    now,
                    r,
                ),
            msg is StartGame && player_index == old(self).creator ==> exists|mid: Room, res: Result<(), String>|
                #[trigger] Room::game_started(old(self), &mid, now, res) && mid.wf() && match res {
                    Ok(_) => Room::game_broadcast(&mid, final(self), now) && r.reply is None && r.expired_token is None
                        && r.follow_up == follow_up_for(final(self)),
                    Err(e) => refusal_answer(&mid, final(self), "start_error"@, e@, r),
                },
            msg matches ClientMessage::Action { action } ==> exists|mid: Room, res: Result<(), String>|
                #[trigger] Room::human_action_applied(old(self), &mid, player_index, action, now, res) && mid.wf()
                    && match res {
                    Ok(_) => Room::action_broadcast(&mid, final(self), player_index, action, false, now) && r.reply is None
                        && r.expired_token is None && r.follow_up == follow_up_for(final(self)),
                    Err(e) => refusal_answer(&mid, final(self), "action_error"@, e@, r),
                },
            msg is PlayAgain && player_index == old(self).creator ==> exists|mid: Room, res: Result<(), String>|
                #[trigger] Room::replay_prepared(old(self), &mid, now, res) && lobby_answer(
                    &mid,
                    final(self),
                    res,
                    "play_again_error"@,
                    now,
                    r,
                ),
            msg is ReturnToLobby ==> exists|mid: Room, res: Result<(), String>|
                #[trigger] Room::returned_to_lobby(old(self), &mid, now, res) && lobby_answer(
                    &mid,
                    final(self),
                    res,
                    "return_error"@,
                    now,
                    r,
                ),
    {
        let idle = PlayerOutcome { reply: None, expired_token: None, follow_up: FollowUp::Idle };
        match msg {
            ClientMessage::Ping => PlayerOutcome { reply: Some(ServerMessage::Pong), expired_token: None, follow_up: FollowUp::Idle },
            ClientMessage::ConfigureSlot { slot, player_type } => {
                if player_index != self.creator {
                    return PlayerOutcome { reply: Some(not_creator("configure slots")), expired_token: None, follow_up: FollowUp::Idle };
                }
                let res = self.configure_slot(slot, player_type.as_str(), now);
                let ghost mid = *self;
                let ghost gres = res;
                proof {
                    assert(Room::slot_configured(old(self), &mid, slot, player_type@, now, gres));
                }
                match res {
                    Ok(()) => {
                        self.broadcast_lobby_state(now);
                        idle
                    },
                    Err(e) => PlayerOutcome { reply: Some(err("configure_error", e)), expired_token: None, follow_up: FollowUp::Idle },
                }
            },
            ClientMessage::SetRules { rules } => {
                if player_index != self.creator {
                    return PlayerOutcome { reply: Some(not_creator("change rules")), expired_token: None, follow_up: FollowUp::Idle };
                }
                let res = self.set_rules(rules.as_str(), now);
                let ghost mid = *self;
                let ghost gres = res;
                proof {
                    assert(Room::rules_set(old(self), &mid, rules@, now, gres));
                }
                match res {
                    Ok(()) => {
                        self.broadcast_lobby_state(now);
                        idle
                    },
                    Err(e) => PlayerOutcome { reply: Some(err("set_rules_error", e)), expired_token: None, follow_up: FollowUp::Idle },
                }
            },
            ClientMessage::SetNumPlayers { num_players } => {
                if player_index != self.creator {
                    return PlayerOutcome {
                        reply: Some(not_creator("change player count")),
                        expired_token: None,
                        follow_up: FollowUp::Idle,
                    };
                }
                let res = self.set_num_players(num_players, now);
                let ghost mid = *self;
                let ghost gres = res;
                proof {
                    assert(Room::player_count_set(old(self), &mid, num_players, now, gres));
                }
                match res {
                    Ok(()) => {
                        self.broadcast_lobby_state(now);
                        idle
                    },
                    Err(e) => PlayerOutcome { reply: Some(err("set_players_error", e)), expired_token: None, follow_up: FollowUp::Idle },
                }
            },
            ClientMessage::KickPlayer { slot } => {
                if player_index != self.creator {
                    return PlayerOutcome { reply: Some(not_creator("kick players")), expired_token: None, follow_up: FollowUp::Idle };
                }
                let res = self.kick_player(slot, now);
                let ghost mid = *self;
                let ghost gres = res;
                proof {
                    assert(Room::player_kicked(old(self), &mid, slot, now, gres));
                }
                match res {
                    Ok(token) => {
                        self.broadcast_lobby_state(now);
                        PlayerOutcome { reply: None, expired_token: token, follow_up: FollowUp::Idle }
                    },
                    Err(e) => PlayerOutcome { reply: Some(err("kick_error", e)), expired_token: None, follow_up: FollowUp::Idle },
                }
            },
            ClientMessage::PromoteHost { slot } => {
                if player_index != self.creator {
                    return PlayerOutcome { reply: Some(not_creator("promote players")), expired_token: None, follow_up: FollowUp::Idle };
                }
                let res = self.promote_host(slot, now);
                let ghost mid = *self;
                let ghost gres = res;
                proof {
                    assert(Room::host_promoted(old(self), &mid, slot, now, gres));
                }
                match res {
                    Ok(()) => {
                        self.broadcast_lobby_state(now);
                        idle
                    },
                    Err(e) => PlayerOutcome { reply: Some(err("promote_error", e)), expired_token: None, follow_up: FollowUp::Idle },
                }
            },
            ClientMessage::SetTurnTimer { secs } => {
                if player_index != self.creator {
                    return PlayerOutcome {
                        reply: Some(not_creator("change the turn timer")),
                        expired_token: None,
                        follow_up: FollowUp::Idle,
                    };
                }
                let res = self.set_turn_timer(secs, now);
                let ghost mid = *self;
                let ghost gres = res;
                proof {
                    assert(Room::turn_timer_set(old(self), &mid, secs, now, gres));
                }
                match res {
                    Ok(()) => {
                        self.broadcast_lobby_state(now);
                        idle
                    },
                    Err(e) => PlayerOutcome { reply: Some(err("set_timer_error", e)), expired_token: None, follow_up: FollowUp::Idle },
                }
            },
            ClientMessage::StartGame => {
                if player_index != self.creator {
                    return PlayerOutcome { reply: Some(not_creator("start the game")), expired_token: None, follow_up: FollowUp::Idle };
                }
                let res = self.start_game(now);
                let ghost mid = *self;
                let ghost gres = res;
                proof {
                    assert(Room::game_started(old(self), &mid, now, gres));
                }
                match res {
                    Ok(()) => {
                        self.broadcast_game_state(now);
                        let follow_up = self.next_follow_up();
                        PlayerOutcome { reply: None, expired_token: None, follow_up }
                    },
                    Err(e) => PlayerOutcome { reply: Some(err("start_error", e)), expired_token: None, follow_up: FollowUp::Idle },
                }
            },
            ClientMessage::Action { action } => {
                let res = self.apply_human_action(player_index, action, now);
                let ghost mid = *self;
                let ghost gres = res;
                proof {
                    assert(Room::human_action_applied(old(self), &mid, player_index, action, now, gres));
                }
                match res {
                    Ok(()) => {
                        self.broadcast_action(player_index, &action, false, now);
                        let follow_up = self.next_follow_up();
                        PlayerOutcome { reply: None, expired_token: None, follow_up }
                    },
                    Err(e) => PlayerOutcome { reply: Some(err("action_error", e)), expired_token: None, follow_up: FollowUp::Idle },
                }
            },
            ClientMessage::PlayAgain => {
                if player_index != self.creator {
                    return PlayerOutcome { reply: Some(not_creator("restart the game")), expired_token: None, follow_up: FollowUp::Idle };
                }
                let res = self.play_again(now);
                let ghost mid = *self;
                let ghost gres = res;
                proof {
                    assert(Room::replay_prepared(old(self), &mid, now, gres));
                }
                match res {
                    Ok(()) => {
                        self.broadcast_lobby_state(now);
                        idle
                    },
                    Err(e) => PlayerOutcome { reply: Some(err("play_again_error", e)), expired_token: None, follow_up: FollowUp::Idle },
                }
            },
            ClientMessage::ReturnToLobby => {
                let res = self.return_to_lobby(now);
                let ghost mid = *self;
                let ghost gres = res;
                proof {
                    assert(Room::returned_to_lobby(old(self), &mid, now, gres));
                }
                match res {
                    Ok(()) => {
                        self.broadcast_lobby_state(now);
                        idle
                    },
                    Err(e) => PlayerOutcome { reply: Some(err("return_error", e)), expired_token: None, follow_up: FollowUp::Idle },
                }
            },
        }
    }
}

} // verus!
