use sorry::interactive::DEFAULT_MAX_TURNS;
use sorry::rules::{home_id, start_area_id};
use sorry::{
    Action, ActionNeeded, Card, InteractiveGame, Move, PlayerAction, PlayerId, RandomStrategy, SorryError,
    StandardRules, StrategyKind,
};

fn game(num_players: usize, seed: u64, play_out: bool) -> InteractiveGame {
    let rules = if play_out {
        StandardRules::new_play_out()
    } else {
        StandardRules::new()
    };
    InteractiveGame::new(rules, num_players, seed).expect("new game")
}

fn cards_in_play(g: &InteractiveGame) -> usize {
    let s = g.get_full_state();
    s.deck_remaining + s.discard.len() + if s.drawn_card.is_some() { 1 } else { 0 }
}

#[test]
fn every_step_keeps_exactly_one_deck_of_cards() {
    let mut g = game(4, 77, false);
    let bot = RandomStrategy;
    assert_eq!(cards_in_play(&g), 45);
    let mut steps = 0;
    while !g.is_over() {
        let a = g.get_bot_action(&bot).unwrap();
        g.apply_action(a).unwrap();
        assert_eq!(cards_in_play(&g), 45, "cards lost or duplicated at step {steps}");
        steps += 1;
    }
    assert!(steps > 0);
}

#[test]
fn standard_game_has_one_winner_with_every_pawn_home() {
    let mut g = game(3, 5, false);
    let bot = RandomStrategy;
    while !g.is_over() {
        let a = g.get_bot_action(&bot).unwrap();
        g.apply_action(a).unwrap();
    }
    let h = g.history().clone();
    if h.truncated {
        return;
    }
    assert_eq!(h.winners.len(), 1);
    let w = h.winners[0];
    let state = g.get_full_state();
    for s in &state.pawn_positions[w.0 as usize] {
        assert_eq!(*s, home_id(w));
    }
    match g.action_needed() {
        ActionNeeded::GameOver { winners, truncated } => {
            assert!(!truncated);
            assert_eq!(winners, &h.winners);
        }
        other => panic!("expected GameOver, got {other:?}"),
    }
}

#[test]
fn play_out_ranks_every_seat_once() {
    let mut g = game(3, 9, true);
    let bot = RandomStrategy;
    while !g.is_over() {
        let a = g.get_bot_action(&bot).unwrap();
        g.apply_action(a).unwrap();
    }
    let h = g.history();
    if h.truncated {
        return;
    }
    let mut seen = vec![false; 3];
    for w in &h.winners {
        assert!(!seen[w.0 as usize]);
        seen[w.0 as usize] = true;
    }
    assert!(seen.iter().all(|s| *s));
    assert_eq!(h.rules_name, "PlayOut");
}

#[test]
fn fresh_game_draws_the_top_card_for_the_first_seat() {
    let g = game(2, 31, false);
    let h = g.history();
    assert_eq!(h.turns.len(), 0);
    let top = *h.initial_deck_order.last().unwrap();
    match g.action_needed() {
        ActionNeeded::ChooseMove { player, card, legal_moves } => {
            assert_eq!(*player, h.starting_player);
            assert_eq!(*card, top);
            assert!(!legal_moves.is_empty());
        }
        other => panic!("expected ChooseMove, got {other:?}"),
    }
    let state = g.get_full_state();
    assert_eq!(state.deck_remaining, 44);
    assert!(state.discard.is_empty());
    for p in 0..2u8 {
        for s in &state.pawn_positions[p as usize] {
            assert_eq!(*s, start_area_id(PlayerId(p)));
        }
    }
    let turn = state.current_turn.expect("open turn");
    assert_eq!(turn.actions, vec![Action::Draw { card: top }]);
}

#[test]
fn refused_actions_change_nothing() {
    let mut g = game(4, 42, false);
    let before = g.get_full_state();
    let bogus = Move::Advance {
        pawn: sorry::PawnId(0),
        card_value: 99,
        to: sorry::SpaceId(999),
    };
    assert!(matches!(
        g.apply_action(PlayerAction::PlayMove { mv: bogus }),
        Err(SorryError::IllegalMove)
    ));
    assert!(matches!(
        g.apply_action(PlayerAction::ChooseCard { hand_index: 3 }),
        Err(SorryError::UnexpectedAction { .. })
    ));
    let after = g.get_full_state();
    assert_eq!(before.pawn_positions, after.pawn_positions);
    assert_eq!(before.deck_remaining, after.deck_remaining);
    assert_eq!(before.current_player, after.current_player);
    assert_eq!(before.drawn_card, after.drawn_card);
}

#[test]
fn constructor_reports_player_count_errors() {
    let err = InteractiveGame::new(StandardRules::new(), 1, 0).err().unwrap();
    assert_eq!(err, SorryError::NotEnoughPlayers { min: 2, got: 1 });
    let err = InteractiveGame::new(StandardRules::new(), 5, 0).err().unwrap();
    assert_eq!(err, SorryError::TooManyPlayers { max: 4, got: 5 });
    assert_eq!(err.message(), "at most 4 players allowed, got 5");
    assert_eq!(
        SorryError::NotEnoughPlayers { min: 2, got: 1 }.message(),
        "need at least 2 players, got 1"
    );
    assert_eq!(SorryError::IllegalMove.message(), "move is not in the legal set");
}

#[test]
fn turn_limit_cuts_the_game_off() {
    let mut g = game(4, 3, false);
    g.set_max_turns(2);
    let bot = RandomStrategy;
    while !g.is_over() {
        let a = g.get_bot_action(&bot).unwrap();
        g.apply_action(a).unwrap();
    }
    let h = g.history();
    assert!(h.truncated);
    assert_eq!(h.turns.len(), 2);
    match g.action_needed() {
        ActionNeeded::GameOver { winners, truncated } => {
            assert!(*truncated);
            assert!(winners.is_empty());
        }
        other => panic!("expected GameOver, got {other:?}"),
    }
    assert_eq!(DEFAULT_MAX_TURNS, 5000);
}

#[test]
fn game_records_the_strategy_names_of_its_seats() {
    let strategies = vec![StrategyKind::Greedy, StrategyKind::NotSorry, StrategyKind::Random];
    let history = sorry::Game::new(StandardRules::new(), strategies, 11)
        .unwrap()
        .play()
        .unwrap();
    assert_eq!(history.strategy_names, vec!["Greedy", "Not Sorry", "Random"]);
    assert_eq!(history.initial_deck_order.len(), 45);
    let mut counts = std::collections::HashMap::new();
    for c in &history.initial_deck_order {
        *counts.entry(*c).or_insert(0) += 1;
    }
    assert_eq!(counts[&Card::One], 5);
    assert_eq!(counts[&Card::Sorry], 4);
}

#[test]
fn extra_turn_keeps_the_turn_open_for_the_same_seat() {
    let mut g = game(4, 1234, false);
    let bot = RandomStrategy;
    while !g.is_over() {
        let before_turns = g.history().turns.len();
        let (player, card) = match g.action_needed() {
            ActionNeeded::ChooseMove { player, card, .. } => (*player, *card),
            _ => unreachable!(),
        };
        let a = g.get_bot_action(&bot).unwrap();
        g.apply_action(a).unwrap();
        if card == Card::Two && !g.is_over() && g.current_player() == player {
            let turn = g.get_full_state().current_turn.unwrap();
            if turn.actions.iter().any(|a| matches!(a, Action::ExtraTurnGranted)) {
                assert_eq!(g.history().turns.len(), before_turns);
                return;
            }
        }
    }
    panic!("no extra turn observed");
}

#[test]
fn apply_action_hands_back_the_new_pending_decision() {
    let mut g = game(2, 31, false);
    let bot = RandomStrategy;
    let mut last_was_game_over = false;
    while !g.is_over() {
        let a = g.get_bot_action(&bot).unwrap();
        let next = g.apply_action(a).unwrap().clone();
        assert_eq!(&next, g.action_needed());
        last_was_game_over = matches!(next, ActionNeeded::GameOver { .. });
    }
    assert!(last_was_game_over);
}
