use sorry::server::dispatch::{FollowUp, err, not_creator};
use sorry::server::lobby::{
    ROOM_CODE_ALPHABET, SessionRef, check_new_room, random_room_code, should_remove_room,
};
use sorry::server::messages::{ClientMessage, PlayerSlotType, ServerMessage};
use sorry::server::room::{PlayerSlot, Room, RoomPhase};
use sorry::server::session::SessionToken;
use sorry::{ActionNeeded, PlayerAction};

fn lobby(n: usize) -> Room {
    Room::new("ABCDEF".to_string(), "Alice".to_string(), n, None, 100)
}

#[test]
fn new_room_seats_creator_and_empties_the_rest() {
    let r = lobby(3);
    assert_eq!(r.phase, RoomPhase::Lobby);
    assert_eq!(r.rules_name, "Standard");
    assert_eq!(r.players.len(), 3);
    assert_eq!(r.players[0].name, "Alice");
    assert!(matches!(r.players[0].slot_type, PlayerSlotType::Human));
    assert!(matches!(r.players[1].slot_type, PlayerSlotType::Empty));
    assert_eq!(r.turn_timer_secs, Some(60));
    assert_eq!(r.phase_label(), "lobby");
    assert_eq!(r.next_available_slot(), Some(1));
    assert!(!r.all_slots_filled());
}

#[test]
fn configure_slot_assigns_bots_and_refuses_bad_requests() {
    let mut r = lobby(2);
    assert_eq!(r.configure_slot(1, "Bot:Greedy", 101), Ok(()));
    assert_eq!(r.players[1].name, "Bot (Greedy)");
    assert!(matches!(&r.players[1].slot_type, PlayerSlotType::Bot { strategy } if strategy == "Greedy"));
    assert_eq!(r.last_activity, 101);
    assert_eq!(r.configure_slot(1, "Bot:Nope", 102), Err("unknown strategy: Nope".to_string()));
    assert_eq!(r.configure_slot(0, "Empty", 102), Err("Cannot remove the creator".to_string()));
    assert_eq!(r.configure_slot(5, "Empty", 102), Err("Invalid slot".to_string()));
    assert_eq!(r.configure_slot(1, "Robot", 102), Err("Unknown player type: Robot".to_string()));
    assert_eq!(r.configure_slot(1, "Empty", 103), Ok(()));
    assert!(matches!(r.players[1].slot_type, PlayerSlotType::Empty));
}

#[test]
fn set_num_players_grows_and_refuses_to_drop_occupied_seats() {
    let mut r = lobby(2);
    assert_eq!(r.set_num_players(4, 1), Ok(()));
    assert_eq!(r.players.len(), 4);
    r.configure_slot(3, "Bot:Random", 2).unwrap();
    assert_eq!(
        r.set_num_players(2, 3),
        Err("Cannot reduce to 2 players: slot 4 is occupied".to_string())
    );
    assert_eq!(r.set_num_players(5, 3), Err("Player count must be 2-4".to_string()));
    r.configure_slot(3, "Empty", 4).unwrap();
    assert_eq!(r.set_num_players(3, 5), Ok(()));
    assert_eq!(r.players.len(), 3);
    assert_eq!(r.num_players, 3);
}

#[test]
fn kick_and_promote() {
    let mut r = lobby(3);
    let tok = SessionToken::new();
    assert_eq!(tok.as_str().chars().count(), 36);
    assert_eq!(r.seat_newcomer("Bob".to_string(), tok.clone(), 5), Ok(1));
    assert_eq!(r.promote_host(2, 6), Err("Can only promote human players".to_string()));
    assert_eq!(r.kick_player(0, 6), Err("Cannot kick the room creator".to_string()));
    assert_eq!(r.kick_player(2, 6), Err("Slot is already empty".to_string()));
    let token = r.kick_player(1, 7).unwrap();
    assert_eq!(token.as_deref(), Some(tok.as_str()));
    assert!(matches!(r.players[1].slot_type, PlayerSlotType::Empty));
    let (seat, msg) = r.outbox.last().unwrap();
    assert_eq!(*seat, 1);
    assert!(matches!(msg, ServerMessage::Kicked { reason } if reason == "You were kicked by the room host"));
    assert_eq!(r.promote_host(0, 8), Ok(()));
    assert_eq!(r.creator, 0);
}

#[test]
fn host_moves_to_a_connected_human_when_the_host_is_away() {
    let mut r = lobby(3);
    r.seat_newcomer("Bob".to_string(), SessionToken::new(), 1).unwrap();
    r.connect_seat(1, 2);
    assert!(r.auto_promote_host(3));
    assert_eq!(r.creator, 1);
    assert!(!r.auto_promote_host(4));
}

#[test]
fn away_humans_are_kicked_after_the_timeout() {
    let mut r = lobby(3);
    r.seat_newcomer("Bob".to_string(), SessionToken::new(), 1).unwrap();
    r.connect_seat(1, 10);
    r.disconnect_seat(1, 20);
    assert!(r.auto_kick_disconnected(60, 50).is_empty());
    let kicked = r.auto_kick_disconnected(60, 80);
    assert_eq!(kicked.len(), 1);
    assert_eq!(kicked[0].0, 1);
    assert!(matches!(r.players[1].slot_type, PlayerSlotType::Empty));
}

fn bots_only_room() -> Room {
    let mut r = lobby(2);
    r.configure_slot(1, "Bot:Random", 1).unwrap();
    r
}

#[test]
fn game_flow_with_a_bot() {
    let mut r = bots_only_room();
    assert_eq!(r.start_game_with_seed(7, 2), Ok(()));
    assert_eq!(r.phase, RoomPhase::InGame);
    assert_eq!(r.phase_label(), "in_game");
    assert_eq!(r.start_game_with_seed(7, 2), Err("Game already started".to_string()));
    let names = r.game.as_ref().unwrap().history().strategy_names.clone();
    assert_eq!(names, vec!["Human", "Random"]);
    let mut guard = 0;
    while r.phase == RoomPhase::InGame && guard < 20000 {
        guard += 1;
        let seat = r.current_player_index().unwrap();
        if r.is_current_player_bot() {
            let (p, _) = r.apply_bot_action(3).unwrap();
            assert_eq!(p, seat);
        } else {
            assert!(r.apply_bot_action(3).is_err());
            let other = 1 - seat;
            let legal = match r.game.as_ref().unwrap().action_needed() {
                ActionNeeded::ChooseMove { legal_moves, .. } => legal_moves.clone(),
                _ => unreachable!(),
            };
            let wrong = r.apply_human_action(other, PlayerAction::PlayMove { mv: legal[0] }, 3);
            assert_eq!(wrong, Err(format!("Not your turn: expected player {seat}, got {other}")));
            assert_eq!(r.apply_human_action(seat, PlayerAction::PlayMove { mv: legal[0] }, 3), Ok(()));
        }
    }
    assert_eq!(r.phase, RoomPhase::GameOver);
    assert_eq!(r.last_winners.len(), 1);
    assert_eq!(r.apply_bot_action(4), Err("Game is over".to_string()));
    assert_eq!(r.play_again(5), Ok(()));
    assert_eq!(r.phase, RoomPhase::Lobby);
    assert!(r.game.is_none());
}

#[test]
fn turn_timer_plays_for_a_slow_human() {
    let mut r = bots_only_room();
    r.start_game_with_seed(99, 0).unwrap();
    while r.is_current_player_bot() {
        r.apply_bot_action(0).unwrap();
    }
    assert_eq!(r.turn_start, Some(0));
    assert_eq!(r.turn_deadline_secs(15), Some(45));
    assert_eq!(r.check_turn_timeout(30), Ok(None));
    let fired = r.check_turn_timeout(61).unwrap();
    assert!(fired.is_some());
}

#[test]
fn lobby_state_reports_seats_and_options() {
    let mut r = lobby(2);
    r.configure_slot(1, "Bot:Loser", 10).unwrap();
    let s = r.lobby_state(40);
    assert_eq!(s.room_code, "ABCDEF");
    assert_eq!(s.phase, "lobby");
    assert_eq!(s.players.len(), 2);
    assert_eq!(s.players[1].name, "Bot (Loser)");
    assert_eq!(s.idle_timeout_secs, Some(1800 - 30));
    assert_eq!(s.available_rules, vec!["Standard"]);
    assert_eq!(s.available_strategies.len(), 8);
    assert_eq!(s.available_strategies[2], "Not Sorry");
}

#[test]
fn messages_from_players_are_gated_and_answered() {
    let mut r = bots_only_room();
    r.seat_newcomer("Bob".to_string(), SessionToken::new(), 1).ok();
    let out = r.handle_player_message(0, ClientMessage::Ping, 2);
    assert!(matches!(out.reply, Some(ServerMessage::Pong)));
    let out = r.handle_player_message(1, ClientMessage::StartGame, 2);
    assert!(matches!(out.reply, Some(ServerMessage::Error { ref code, ref message })
        if code == "not_creator" && message == "Only the room creator can start the game"));
    let out = r.handle_player_message(0, ClientMessage::SetRules { rules: "Weird".to_string() }, 2);
    assert!(matches!(out.reply, Some(ServerMessage::Error { ref code, ref message })
        if code == "set_rules_error" && message == "unknown rules variant: Weird"));
    let out = r.handle_player_message(0, ClientMessage::StartGame, 3);
    assert!(out.reply.is_none());
    assert_ne!(out.follow_up, FollowUp::Idle);
    assert_eq!(r.phase, RoomPhase::InGame);
}

#[test]
fn lobby_helpers() {
    let code = random_room_code();
    assert_eq!(code.chars().count(), 6);
    assert!(code.chars().all(|c| ROOM_CODE_ALPHABET.contains(c)));
    assert_eq!(check_new_room(1, 0, 10), Err("Player count must be 2-4".to_string()));
    assert_eq!(check_new_room(3, 10, 10), Err("Server is at maximum room capacity".to_string()));
    assert_eq!(check_new_room(3, 2, 10), Ok(()));
    assert!(should_remove_room(RoomPhase::GameOver, 11, false, 10, 100));
    assert!(!should_remove_room(RoomPhase::InGame, 500, false, 10, 100));
    assert!(should_remove_room(RoomPhase::Lobby, 1801, false, 10, 100000));
    let s = SessionRef::Player { code: "XYZ".to_string(), slot: 1 };
    assert_eq!(s.code(), "XYZ");
    let t: SessionToken = SessionToken::from("abc".to_string());
    assert_eq!(t.as_str(), "abc");
    assert!(matches!(not_creator("kick players"), ServerMessage::Error { ref message, .. }
        if message == "Only the room creator can kick players"));
    assert!(matches!(err("x", "y".to_string()), ServerMessage::Error { ref code, ref message }
        if code == "x" && message == "y"));
    let _ = PlayerSlot::empty();
}

#[test]
fn default_session_tokens_are_fresh_uuids() {
    let a = SessionToken::default();
    let b = SessionToken::default();
    assert_eq!(a.as_str().len(), 36);
    assert_eq!(a.as_str().matches('-').count(), 4);
    assert_ne!(a, b);
}

#[test]
fn creator_token_is_handed_to_seat_zero_only() {
    let mut r = lobby(3);
    let token = SessionToken::new();
    r.give_token(0, token.clone());
    assert_eq!(r.players[0].session_token.as_ref().map(|t| t.as_str().to_string()), Some(token.as_str().to_string()));
    assert!(r.players[1].session_token.is_none());
    assert_eq!(r.players[0].name, "Alice");
    assert_eq!(r.phase, RoomPhase::Lobby);
}

#[test]
fn kick_from_a_non_host_hands_back_no_session() {
    let mut r = lobby(3);
    r.give_token(0, SessionToken::new());
    let bob = SessionToken::new();
    let slot = r.seat_newcomer("Bob".to_string(), bob.clone(), 101).unwrap();
    let before = r.players[slot].session_token.as_ref().map(|t| t.as_str().to_string());
    let out = r.handle_player_message(slot, ClientMessage::KickPlayer { slot: 0 }, 102);
    assert!(out.expired_token.is_none());
    assert!(matches!(out.reply, Some(ServerMessage::Error { ref code, .. }) if code == "not_creator"));
    assert_eq!(r.players[slot].session_token.as_ref().map(|t| t.as_str().to_string()), before);
    assert_eq!(r.players[0].name, "Alice");
}
