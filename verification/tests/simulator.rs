use sorry::{RandomStrategy, Simulator, SimulatorConfig, StandardRules};

fn make_simulator(num_games: usize, base_seed: u64, num_players: usize) -> Simulator<RandomStrategy> {
    Simulator::new(
        SimulatorConfig {
            num_games,
            base_seed,
        },
        StandardRules::new(),
        vec![RandomStrategy; num_players],
    )
}

fn avg_turns(total: u128, num_games: usize) -> f64 {
    total as f64 / num_games.max(1) as f64
}

#[test]
fn identical_config_produces_identical_histories() {
    let sim_a = make_simulator(4, 123, 2);
    let sim_b = make_simulator(4, 123, 2);
    let (histories_a, stats_a) = sim_a.run().expect("run a");
    let (histories_b, stats_b) = sim_b.run().expect("run b");
    assert_eq!(histories_a, histories_b);
    assert_eq!(stats_a.wins_per_player, stats_b.wins_per_player);
}

#[test]
fn run_stats_only_matches_run_aggregate() {
    let sim = make_simulator(5, 7, 3);
    let (_, stats_full) = sim.run().expect("run");
    let stats_only = make_simulator(5, 7, 3)
        .run_stats_only()
        .expect("run_stats_only");
    assert_eq!(stats_full.wins_per_player, stats_only.wins_per_player);
    assert_eq!(stats_full.truncated_count, stats_only.truncated_count);
    assert_eq!(stats_full.min_turns, stats_only.min_turns);
    assert_eq!(stats_full.max_turns, stats_only.max_turns);
    assert!(
        (avg_turns(stats_full.total_turns, stats_full.num_games)
            - avg_turns(stats_only.total_turns, stats_only.num_games))
        .abs()
            < 1e-9
    );
}

#[test]
fn every_game_has_at_least_one_winner_or_is_truncated() {
    let sim = make_simulator(3, 42, 2);
    let (histories, stats) = sim.run().expect("run");
    let total_winner_slots: usize = stats.wins_per_player.iter().sum();
    let non_truncated = histories.iter().filter(|h| !h.truncated).count();
    assert!(total_winner_slots >= non_truncated);
    assert_eq!(stats.num_games, histories.len());
    assert_eq!(stats.num_players, 2);
}
