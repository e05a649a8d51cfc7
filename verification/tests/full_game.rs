use sorry::{Game, PlayerId, RandomStrategy, StandardRules};

fn random_strategies(n: usize) -> Vec<RandomStrategy> {
    vec![RandomStrategy; n]
}

#[test]
fn game_runs_to_completion_random_v_random_seed_1() {
    let rules = StandardRules::new();
    let strategies = random_strategies(4);
    let game = Game::new(rules, strategies, 1).expect("new game");
    let history = game.play().expect("play");

    assert!(
        !history.turns.is_empty(),
        "game should have at least one turn"
    );
    // Either a winner was found or the game was truncated.
    if history.truncated {
        println!(
            "game truncated at {} turns without winner",
            history.turns.len()
        );
    } else {
        assert!(
            !history.winners.is_empty(),
            "non-truncated game must have a winner"
        );
        let rules = StandardRules::new();
        // Reconstruct the final board by replaying; for now just check via
        // winners field.
        for &w in &history.winners {
            let _ = w;
            let _ = &rules;
        }
    }
}

#[test]
fn two_player_game_works() {
    let rules = StandardRules::new();
    let strategies = random_strategies(2);
    let mut game = Game::new(rules, strategies, 42).expect("new game");
    game.set_max_turns(3_000);
    let history = game.play().expect("play");
    assert!(!history.turns.is_empty());
    for t in &history.turns {
        assert!(
            t.player.0 < 2,
            "2-player game should only reference player ids 0/1"
        );
    }
}

#[test]
fn three_player_game_works() {
    let rules = StandardRules::new();
    let strategies = random_strategies(3);
    let game = Game::new(rules, strategies, 7).expect("new game");
    let history = game.play().expect("play");
    assert!(!history.turns.is_empty());
    for t in &history.turns {
        assert!(t.player.0 < 3);
    }
}

#[test]
fn rejects_wrong_player_count() {
    let rules = StandardRules::new();
    let strategies = random_strategies(1);
    assert!(Game::new(rules, strategies, 0).is_err());

    let rules = StandardRules::new();
    let strategies = random_strategies(5);
    assert!(Game::new(rules, strategies, 0).is_err());
}

#[test]
fn starting_player_is_within_bounds() {
    let rules = StandardRules::new();
    let strategies = random_strategies(4);
    let game = Game::new(rules, strategies, 99).expect("new game");
    let history = game.play().expect("play");
    assert!(history.starting_player.0 < 4);
    let _ = PlayerId(0);
}

#[test]
fn play_out_variant_records_full_placement_order() {
    let rules = StandardRules::new_play_out();
    let strategies = random_strategies(4);
    let mut game = Game::new(rules, strategies, 12345).expect("new game");
    game.set_max_turns(10_000);
    let history = game.play().expect("play");
    if history.truncated {
        println!("seed 12345 truncated — try a different seed for this test");
        return;
    }
    // Play Out finalizes the full 1st-through-Nth placement order.
    assert_eq!(
        history.winners.len(),
        history.num_players,
        "Play Out should record every player's placement, got {:?}",
        history.winners
    );
    // Placements must be a permutation of the player IDs.
    let mut seen = std::collections::HashSet::new();
    for w in &history.winners {
        assert!(
            w.0 < history.num_players as u8,
            "placement {w:?} out of range"
        );
        assert!(seen.insert(w.0), "player {:?} recorded twice", w);
    }
}

#[test]
fn standard_variant_stops_at_first_finisher() {
    let rules = StandardRules::new();
    let strategies = random_strategies(4);
    let game = Game::new(rules, strategies, 12345).expect("new game");
    let history = game.play().expect("play");
    if history.truncated {
        return;
    }
    assert_eq!(
        history.winners.len(),
        1,
        "Standard rules should end at the first finisher, got {:?}",
        history.winners
    );
}

#[test]
fn cut_off_game_records_exactly_the_turn_limit() {
    let rules = StandardRules::new();
    let mut game = Game::new(rules, random_strategies(4), 5).expect("new game");
    game.set_max_turns(7);
    let history = game.play().expect("play");
    assert!(history.truncated);
    assert_eq!(history.turns.len(), 7);
    assert!(history.winners.is_empty());
}

#[test]
fn same_seed_deals_the_same_opening() {
    let a = sorry::InteractiveGame::new(StandardRules::new(), 3, 2026).expect("game");
    let b = sorry::InteractiveGame::new(StandardRules::new(), 3, 2026).expect("game");
    let c = sorry::InteractiveGame::new(StandardRules::new(), 3, 2027).expect("game");
    assert_eq!(a.history().initial_deck_order, b.history().initial_deck_order);
    assert_eq!(a.history().starting_player, b.history().starting_player);
    assert_ne!(a.history().initial_deck_order, c.history().initial_deck_order);
}
