//! Batch runs: many games from one configuration, and their tallies.
//!
//! Per-game seeds are derived from a single base seed, so a whole batch is
//! reproducible from its `SimulatorConfig`. Win rates and averages (which
//! need floating point) are computed by callers from `AggregateCounts`.

use crate::board::PlayerId;
use crate::error::SorryError;
use crate::game::{Game, decided, played_through};
use crate::interactive::InteractiveGame;
use crate::replay::{batch_of, dealt, game_of, lemma_batches_repeat, same_history};
use crate::history::GameHistory;
use crate::rules::StandardRules;
use crate::strategy::Strategy;
use vstd::prelude::*;

verus! {

#[derive(Debug, Clone, Copy, PartialEq, Eq, Structural)]
pub struct SimulatorConfig {
    pub num_games: usize,
    pub base_seed: u64,
}

/// The outcome of one game.
#[derive(Debug, Clone, PartialEq, Eq)]
pub struct GameStats {
    pub winners: Vec<PlayerId>,
    pub num_turns: usize,
    pub truncated: bool,
}

/// Tallies over a batch of games.
#[derive(Debug, Clone, PartialEq, Eq)]
pub struct AggregateCounts {
    pub num_games: usize,
    pub num_players: usize,
    /// `wins_per_player[p]`: how many times seat `p` is listed among a
    /// game's winners.
    pub wins_per_player: Vec<usize>,
    pub total_turns: u128,
    /// Fewest turns of any game (0 for an empty batch).
    pub min_turns: usize,
    /// Most turns of any game (0 for an empty batch).
    pub max_turns: usize,
    pub truncated_count: usize,
}

/// A game's outcome as plain values: winners, turns, truncated.
pub open spec fn stats_row(g: GameStats) -> (Seq<PlayerId>, nat, bool) {
    (g.winners@, g.num_turns as nat, g.truncated)
}

pub open spec fn history_row(h: GameHistory) -> (Seq<PlayerId>, nat, bool) {
    (h.winners@, h.turns@.len(), h.truncated)
}

/// How often seat `p` appears in `w`.
pub open spec fn count_of(w: Seq<PlayerId>, p: int) -> nat
    decreases w.len(),
{
    if w.len() == 0 {
        0
    } else {
        count_of(w.drop_last(), p) + if w.last().0 == p {
            1nat
        } else {
            0nat
        }
    }
}

/// How often seat `p` appears among the winners of all `rows`.
pub open spec fn wins_of(rows: Seq<(Seq<PlayerId>, nat, bool)>, p: int) -> nat
    decreases rows.len(),
{
    if rows.len() == 0 {
        0
    } else {
        wins_of(rows.drop_last(), p) + count_of(rows.last().0, p)
    }
}

/// The number of winner entries in all `rows`.
pub open spec fn entries_of(rows: Seq<(Seq<PlayerId>, nat, bool)>) -> nat
    decreases rows.len(),
{
    if rows.len() == 0 {
        0
    } else {
        entries_of(rows.drop_last()) + rows.last().0.len()
    }
}

pub open spec fn truncated_of(rows: Seq<(Seq<PlayerId>, nat, bool)>) -> nat
    decreases rows.len(),
{
    if rows.len() == 0 {
        0
    } else {
        truncated_of(rows.drop_last()) + if rows.last().2 {
            1nat
        } else {
            0nat
        }
    }
}

pub open spec fn turns_of(rows: Seq<(Seq<PlayerId>, nat, bool)>) -> nat
    decreases rows.len(),
{
    if rows.len() == 0 {
        0
    } else {
        turns_of(rows.drop_last()) + rows.last().1
    }
}

pub open spec fn fewest_turns(rows: Seq<(Seq<PlayerId>, nat, bool)>) -> nat
    decreases rows.len(),
{
    if rows.len() == 0 {
        0
    } else if rows.len() == 1 {
        rows[0].1
    } else if rows.last().1 < fewest_turns(rows.drop_last()) {
        rows.last().1
    } else {
        fewest_turns(rows.drop_last())
    }
}

pub open spec fn most_turns(rows: Seq<(Seq<PlayerId>, nat, bool)>) -> nat
    decreases rows.len(),
{
    if rows.len() == 0 {
        0
    } else if rows.last().1 > most_turns(rows.drop_last()) {
        rows.last().1
    } else {
        most_turns(rows.drop_last())
    }
}

/// Every game of `rows` lists each winner once.
pub open spec fn distinct_winners(rows: Seq<(Seq<PlayerId>, nat, bool)>) -> bool {
    forall|k: int| 0 <= k < rows.len() ==> (#[trigger] rows[k]).0.no_duplicates()
}

/// `a` tallies `rows` for a table of `n` seats.
pub open spec fn tallies(a: AggregateCounts, rows: Seq<(Seq<PlayerId>, nat, bool)>, n: nat) -> bool {
    &&& a.num_games == rows.len()
    &&& a.num_players == n
    &&& a.wins_per_player@.len() == n
    &&& forall|p: int| 0 <= p < n ==> #[trigger] a.wins_per_player@[p] == wins_of(rows, p)
    &&& a.total_turns == turns_of(rows)
    &&& a.min_turns == fewest_turns(rows)
    &&& a.max_turns == most_turns(rows)
    &&& a.truncated_count == truncated_of(rows)
}

impl GameStats {
    pub fn from_history(history: &GameHistory) -> (r: GameStats)
        ensures
            stats_row(r) == history_row(*history),
    {
        let mut winners: Vec<PlayerId> = Vec::new();
        let mut i: usize = 0;
        while i < history.winners.len()
            invariant
                i <= history.winners@.len(),
                winners@ == history.winners@.subrange(0, i as int),
            decreases history.winners@.len() - i,
        {
            winners.push(history.winners[i]);
            i = i + 1;
        }
        assert(winners@ =~= history.winners@);
        GameStats { winners, num_turns: history.turns.len(), truncated: history.truncated }
    }
}

proof fn lemma_count_absent(w: Seq<PlayerId>, p: int)
    requires
        forall|k: int| 0 <= k < w.len() ==> (#[trigger] w[k]).0 != p,
    ensures
        count_of(w, p) == 0,
    decreases w.len(),
{
    if w.len() > 0 {
        lemma_count_absent(w.drop_last(), p);
    }
}

proof fn lemma_count_at_most_one(w: Seq<PlayerId>, p: int)
    requires
        w.no_duplicates(),
    ensures
        count_of(w, p) <= 1,
    decreases w.len(),
{
    if w.len() > 0 {
        let rest = w.drop_last();
        assert(rest.no_duplicates());
        lemma_count_at_most_one(rest, p);
        if w.last().0 == p {
            assert forall|k: int| 0 <= k < rest.len() implies (#[trigger] rest[k]).0 != p by {
                assert(w[k] != w[w.len() - 1]);
            }
            lemma_count_absent(rest, p);
        }
    }
}

proof fn lemma_prefix_bounds(rows: Seq<(Seq<PlayerId>, nat, bool)>, p: int)
    requires
        distinct_winners(rows),
        forall|k: int| 0 <= k < rows.len() ==> (#[trigger] rows[k]).1 <= usize::MAX,
    ensures
        wins_of(rows, p) <= rows.len(),
        truncated_of(rows) <= rows.len(),
        turns_of(rows) <= rows.len() * usize::MAX,
    decreases rows.len(),
{
    if rows.len() > 0 {
        let rest = rows.drop_last();
        assert forall|k: int| 0 <= k < rest.len() implies (#[trigger] rest[k]).0.no_duplicates() by {
            assert(rest[k] == rows[k]);
        }
        assert forall|k: int| 0 <= k < rest.len() implies (#[trigger] rest[k]).1 <= usize::MAX by {
            assert(rest[k] == rows[k]);
        }
        lemma_prefix_bounds(rest, p);
        lemma_count_at_most_one(rows.last().0, p);
        let m = rows.len();
        assert((m - 1) * usize::MAX + usize::MAX == m * usize::MAX) by (nonlinear_arith);
    }
}

/// Tallies `stats` for a table of `num_players` seats. Winners naming a
/// seat outside the table are not counted.
pub fn compute_aggregate(stats: &[GameStats], num_players: usize) -> (r: AggregateCounts)
    requires
        distinct_winners(stats@.map_values(|g: GameStats| stats_row(g))),
    ensures
        tallies(r, stats@.map_values(|g: GameStats| stats_row(g)), num_players as nat),
{
    let ghost rows = stats@.map_values(|g: GameStats| stats_row(g));
    let num_games = stats.len();
    let mut wins_per_player: Vec<usize> = Vec::new();
    let mut p: usize = 0;
    while p < num_players
        invariant
            p <= num_players,
            wins_per_player@ == Seq::new(p as nat, |q: int| 0usize),
        decreases num_players - p,
    {
        wins_per_player.push(0);
        p = p + 1;
        assert(wins_per_player@ =~= Seq::new(p as nat, |q: int| 0usize));
    }
    let mut truncated_count: usize = 0;
    let mut total_turns: u128 = 0;
    let mut min_turns: usize = usize::MAX;
    let mut max_turns: usize = 0;
    let mut i: usize = 0;
    while i < num_games
        invariant
            i <= num_games == stats@.len() == rows.len(),
            rows == stats@.map_values(|g: GameStats| stats_row(g)),
            distinct_winners(rows),
            wins_per_player@.len() == num_players,
            forall|q: int| 0 <= q < num_players ==> #[trigger] wins_per_player@[q] == wins_of(rows.take(i as int), q),
            truncated_count == truncated_of(rows.take(i as int)),
            total_turns == turns_of(rows.take(i as int)),
            i == 0 ==> min_turns == usize::MAX,
            i > 0 ==> min_turns == fewest_turns(rows.take(i as int)),
            max_turns == most_turns(rows.take(i as int)),
        decreases num_games - i,
    {
        let game = &stats[i];
        let ghost before = wins_per_player@;
        let ghost w = game.winners@;
        assert(rows[i as int] == stats_row(stats@[i as int]));
        assert(rows.take(i + 1).drop_last() =~= rows.take(i as int));
        let ghost pre = rows.take(i + 1);
        proof {
            assert forall|k: int| 0 <= k < pre.len() implies (#[trigger] pre[k]).0.no_duplicates() by {
                assert(pre[k] == rows[k]);
            }
            assert forall|k: int| 0 <= k < pre.len() implies (#[trigger] pre[k]).1 <= usize::MAX by {
                assert(pre[k] == stats_row(stats@[k]));
            }
            lemma_prefix_bounds(pre, 0);
            assert(w.no_duplicates());
        }
        let mut j: usize = 0;
        while j < game.winners.len()
            invariant
                j <= w.len(),
                w == game.winners@,
                w.no_duplicates(),
                i < num_games,
                wins_per_player@.len() == num_players,
                distinct_winners(pre),
                pre == rows.take(i + 1),
                pre.drop_last() == rows.take(i as int),
                pre.last().0 == w,
                pre.len() == i + 1,
                forall|k: int| 0 <= k < pre.len() ==> (#[trigger] pre[k]).1 <= usize::MAX,
                forall|q: int|
                    0 <= q < num_players ==> #[trigger] wins_per_player@[q] == before[q] + count_of(
                        w.take(j as int),
                        q,
                    ),
                forall|q: int| 0 <= q < num_players ==> before[q] == wins_of(rows.take(i as int), q),
            decreases w.len() - j,
        {
            let idx = game.winners[j].0 as usize;
            assert(w.take(j + 1).drop_last() =~= w.take(j as int));
            if idx < num_players {
                proof {
                    let prev = rows.take(i as int);
                    assert forall|k: int| 0 <= k < prev.len() implies (#[trigger] prev[k]).0.no_duplicates() by {
                        assert(prev[k] == pre[k]);
                    }
                    assert forall|k: int| 0 <= k < prev.len() implies (#[trigger] prev[k]).1 <= usize::MAX by {
                        assert(prev[k] == pre[k]);
                    }
                    lemma_prefix_bounds(prev, idx as int);
                    let wj = w.take(j + 1);
                    assert(wj.no_duplicates());
                    lemma_count_at_most_one(wj, idx as int);
                    assert(wj.last() == w[j as int]);
                }
                let v = wins_per_player[idx];
                wins_per_player.set(idx, v + 1);
            }
            j = j + 1;
        }
        assert(w.take(w.len() as int) =~= w);
        if game.truncated {
            truncated_count = truncated_count + 1;
        }
        proof {
            assert(turns_of(pre) <= (i + 1) * usize::MAX);
            assert((i + 1) * usize::MAX <= usize::MAX * usize::MAX) by (nonlinear_arith)
                requires
                    i + 1 <= usize::MAX,
            ;
        }
        total_turns = total_turns + game.num_turns as u128;
        if game.num_turns < min_turns {
            min_turns = game.num_turns;
        }
        if game.num_turns > max_turns {
            max_turns = game.num_turns;
        }
        i = i + 1;
    }
    assert(rows.take(num_games as int) =~= rows);
    AggregateCounts {
        num_games,
        num_players,
        wins_per_player,
        total_turns,
        min_turns: if num_games == 0 {
            0
        } else {
            min_turns
        },
        max_turns,
        truncated_count,
    }
}

pub struct Simulator<S> {
    config: SimulatorConfig,
    rules: StandardRules,
    strategies: Vec<S>,
}

/// The seed of game `index` of a batch: the base seed plus the index,
/// wrapping around.
pub open spec fn game_seed(base_seed: u64, index: int) -> u64 {
    if base_seed + index > u64::MAX {
        (base_seed + index - 0x1_0000_0000_0000_0000) as u64
    } else {
        (base_seed + index) as u64
    }
}

/// Game `index` of a batch is dealt with the base seed plus `index`,
/// modulo 2^64.
pub proof fn lemma_seed_wraps(base_seed: u64, index: int)
    requires
        0 <= index <= u64::MAX,
    ensures
        game_seed(base_seed, index) as int == (base_seed as int + index) % 0x1_0000_0000_0000_0000,
{
}

/// Different games of one batch get different seeds.
pub proof fn lemma_seeds_apart(b: int, i: int, j: int)
    requires
        0 <= b < 0x1_0000_0000_0000_0000,
        0 <= i < j <= u64::MAX,
    ensures
        (b + i) % 0x1_0000_0000_0000_0000 != (b + j) % 0x1_0000_0000_0000_0000,
{
}

impl<S: Strategy + Copy> Simulator<S> {
    pub closed spec fn config_model(&self) -> SimulatorConfig {
        self.config
    }

    pub closed spec fn rules_model(&self) -> StandardRules {
        self.rules
    }

    pub closed spec fn seat_count(&self) -> nat {
        self.strategies@.len()
    }

    /// The strategy of each seat.
    pub closed spec fn seats(&self) -> Seq<S> {
        self.strategies@
    }

    /// A batch of `config.num_games` games under `rules`, one seat per
    /// strategy.
    pub fn new(config: SimulatorConfig, rules: StandardRules, strategies: Vec<S>) -> (r: Self)
        ensures
            r.config_model() == config,
            r.rules_model() == rules,
            r.seat_count() == strategies@.len(),
    {
        Simulator { config, rules, strategies }
    }

    fn play_one(&self, index: usize) -> (r: Result<GameHistory, SorryError>)
        ensures
            self.strategies@.len() < 2 ==> r == Err::<GameHistory, SorryError>(
                SorryError::NotEnoughPlayers { min: 2, got: self.strategies@.len() as usize },
            ),
            self.strategies@.len() > 4 ==> r == Err::<GameHistory, SorryError>(
                SorryError::TooManyPlayers { max: 4, got: self.strategies@.len() as usize },
            ),
            2 <= self.strategies@.len() <= 4 ==> r is Ok,
            2 <= self.strategies@.len() <= 4 && r is Ok ==> r->Ok_0.seed == game_seed(
                self.config.base_seed,
                index as int,
            ) && r->Ok_0.num_players == self.strategies@.len() && r->Ok_0.winners@.no_duplicates() && (!r->Ok_0.truncated ==> decided(
                r->Ok_0,
                self.rules.is_play_out(),
            )),
            r is Ok ==> game_of(
                r->Ok_0,
                game_seed(self.config.base_seed, index as int),
                self.strategies@,
                self.rules.is_play_out(),
            ),
    {
        let seed = self.config.base_seed.wrapping_add(index as u64);
        let rules = if self.rules.play_out() {
            StandardRules::new_play_out()
        } else {
            StandardRules::new()
        };
        let mut strategies: Vec<S> = Vec::new();
        let mut k: usize = 0;
        while k < self.strategies.len()
            invariant
                k <= self.strategies@.len(),
                strategies@ == self.strategies@.take(k as int),
            decreases self.strategies@.len() - k,
        {
            strategies.push(self.strategies[k]);
            k = k + 1;
        }
        assert(strategies@ =~= self.strategies@);
        let game = Game::new(rules, strategies, seed)?;
        let ghost seats = game.seats();
        let ghost start = game.state();
        let r = game.play();
        assert(seed == game_seed(self.config.base_seed, index as int));
        proof {
            let h = r->Ok_0;
            let t = choose|t: Seq<InteractiveGame>| #[trigger] played_through(seats, t, start, h);
            assert(played_through(seats, t, start, h));
            assert(dealt(seats, start, self.rules.is_play_out(), seed));
        }
        r
    }

    /// Plays every game of the batch; returns each record and the tallies.
    pub fn run(&self) -> (r: Result<(Vec<GameHistory>, AggregateCounts), SorryError>)
        ensures
            self.config_model().num_games > 0 && self.seat_count() < 2 ==> r == Err::<
                (Vec<GameHistory>, AggregateCounts),
                SorryError,
            >(SorryError::NotEnoughPlayers { min: 2, got: self.seat_count() as usize }),
            self.config_model().num_games > 0 && self.seat_count() > 4 ==> r == Err::<
                (Vec<GameHistory>, AggregateCounts),
                SorryError,
            >(SorryError::TooManyPlayers { max: 4, got: self.seat_count() as usize }),
            self.config_model().num_games == 0 || 2 <= self.seat_count() <= 4 ==> r is Ok,
            r matches Ok((hs, agg)) ==> {
                &&& hs@.len() == self.config_model().num_games
                &&& forall|i: int|
                    0 <= i < hs@.len() ==> (#[trigger] hs@[i]).seed == game_seed(self.config_model().base_seed, i)
                        && hs@[i].num_players == self.seat_count() && (!hs@[i].truncated ==> decided(
                        hs@[i],
                        self.rules_model().is_play_out(),
                    ))
                &&& tallies(agg, hs@.map_values(|h: GameHistory| history_row(h)), self.seat_count())
                &&& batch_of(hs@, self.config_model().base_seed, self.seats(), self.rules_model().is_play_out())
                &&& forall|i: int|
                    0 <= i < hs@.len() ==> (#[trigger] hs@[i]).seed as int == (self.config_model().base_seed as int + i)
                        % 0x1_0000_0000_0000_0000
                &&& forall|i: int, j: int|
                    0 <= i < j < hs@.len() ==> (#[trigger] hs@[i]).seed != (#[trigger] hs@[j]).seed
            },
    {
        let num_players = self.strategies.len();
        let mut histories: Vec<GameHistory> = Vec::new();
        let mut per_game: Vec<GameStats> = Vec::new();
        let mut i: usize = 0;
        while i < self.config.num_games
            invariant
                i <= self.config.num_games,
                num_players == self.strategies@.len(),
                histories@.len() == i,
                per_game@.len() == i,
                i > 0 ==> 2 <= num_players <= 4,
                forall|k: int| 0 <= k < i ==> stats_row(#[trigger] per_game@[k]) == history_row(histories@[k]),
                forall|k: int|
                    0 <= k < i ==> (#[trigger] histories@[k]).seed == game_seed(self.config.base_seed, k)
                        && histories@[k].num_players == num_players && histories@[k].winners@.no_duplicates() && (!histories@[k].truncated ==> decided(
                        histories@[k],
                        self.rules.is_play_out(),
                    )),
                batch_of(histories@, self.config.base_seed, self.strategies@, self.rules.is_play_out()),
            decreases self.config.num_games - i,
        {
            let played = self.play_one(i);
            let history = match played {
                Ok(h) => h,
                Err(e) => {
                    return Err(e);
                },
            };
            per_game.push(GameStats::from_history(&history));
            let ghost before = histories@;
            histories.push(history);
            proof {
                assert forall|k: int| 0 <= k < histories@.len() implies game_of(
                    #[trigger] histories@[k],
                    game_seed(self.config.base_seed, k),
                    self.strategies@,
                    self.rules.is_play_out(),
                ) by {
                    if k < i {
                        assert(histories@[k] == before[k]);
                    } else {
                        assert(histories@[k] == history);
                    }
                }
                assert(batch_of(histories@, self.config.base_seed, self.strategies@, self.rules.is_play_out()));
            }
            i = i + 1;
        }
        proof {
            let rows = per_game@.map_values(|g: GameStats| stats_row(g));
            assert(rows =~= histories@.map_values(|h: GameHistory| history_row(h)));
            assert forall|k: int| 0 <= k < rows.len() implies (#[trigger] rows[k]).0.no_duplicates() by {
                assert(rows[k] == history_row(histories@[k]));
            }
        }
        proof {
            assert forall|i: int| 0 <= i < histories@.len() implies (#[trigger] histories@[i]).seed as int == (
            self.config.base_seed as int + i) % 0x1_0000_0000_0000_0000 by {
                lemma_seed_wraps(self.config.base_seed, i);
            }
            assert forall|i: int, j: int| 0 <= i < j < histories@.len() implies (#[trigger] histories@[i]).seed != (
            #[trigger] histories@[j]).seed by {
                lemma_seed_wraps(self.config.base_seed, i);
                lemma_seed_wraps(self.config.base_seed, j);
                lemma_seeds_apart(self.config.base_seed as int, i, j);
            }
        }
        let aggregate = compute_aggregate(per_game.as_slice(), num_players);
        Ok((histories, aggregate))
    }

    /// Plays every game of the batch and keeps only the tallies.
    pub fn run_stats_only(&self) -> (r: Result<AggregateCounts, SorryError>)
        ensures
            self.config_model().num_games > 0 && self.seat_count() < 2 ==> r == Err::<AggregateCounts, SorryError>(
                SorryError::NotEnoughPlayers { min: 2, got: self.seat_count() as usize },
            ),
            self.config_model().num_games > 0 && self.seat_count() > 4 ==> r == Err::<AggregateCounts, SorryError>(
                SorryError::TooManyPlayers { max: 4, got: self.seat_count() as usize },
            ),
            self.config_model().num_games == 0 || 2 <= self.seat_count() <= 4 ==> r is Ok,
            r matches Ok(agg) ==> agg.num_games == self.config_model().num_games && agg.num_players
                == self.seat_count(),
    {
        let num_players = self.strategies.len();
        let mut per_game: Vec<GameStats> = Vec::new();
        let mut i: usize = 0;
        while i < self.config.num_games
            invariant
                i <= self.config.num_games,
                num_players == self.strategies@.len(),
                per_game@.len() == i,
                i > 0 ==> 2 <= num_players <= 4,
                forall|k: int| 0 <= k < i ==> (#[trigger] per_game@[k]).winners@.no_duplicates(),
            decreases self.config.num_games - i,
        {
            let history = self.play_one(i)?;
            per_game.push(GameStats::from_history(&history));
            i = i + 1;
        }
        proof {
            let rows = per_game@.map_values(|g: GameStats| stats_row(g));
            assert forall|k: int| 0 <= k < rows.len() implies (#[trigger] rows[k]).0.no_duplicates() by {
                assert(rows[k] == stats_row(per_game@[k]));
            }
        }
        Ok(compute_aggregate(per_game.as_slice(), num_players))
    }
}

/// Runs repeat: two batches of one configuration (base seed, seats, rules
/// variant) record the same games and come to the same tallies.
pub proof fn lemma_runs_repeat<S: Strategy>(
    hs1: Seq<GameHistory>,
    hs2: Seq<GameHistory>,
    agg1: AggregateCounts,
    agg2: AggregateCounts,
    base: u64,
    seats: Seq<S>,
    play_out: bool,
)
    requires
        batch_of(hs1, base, seats, play_out),
        batch_of(hs2, base, seats, play_out),
        hs1.len() == hs2.len(),
        tallies(agg1, hs1.map_values(|h: GameHistory| history_row(h)), seats.len()),
        tallies(agg2, hs2.map_values(|h: GameHistory| history_row(h)), seats.len()),
    ensures
        forall|i: int| 0 <= i < hs1.len() ==> same_history(#[trigger] hs1[i], hs2[i]),
        agg1.num_games == agg2.num_games,
        agg1.num_players == agg2.num_players,
        agg1.wins_per_player@ == agg2.wins_per_player@,
        agg1.total_turns == agg2.total_turns,
        agg1.min_turns == agg2.min_turns,
        agg1.max_turns == agg2.max_turns,
        agg1.truncated_count == agg2.truncated_count,
{
    lemma_batches_repeat(hs1, hs2, base, seats, play_out);
    let rows1 = hs1.map_values(|h: GameHistory| history_row(h));
    let rows2 = hs2.map_values(|h: GameHistory| history_row(h));
    assert(rows1 =~= rows2) by {
        assert forall|i: int| 0 <= i < rows1.len() implies rows1[i] == rows2[i] by {
            assert(same_history(hs1[i], hs2[i]));
        }
    }
    assert(agg1.wins_per_player@ =~= agg2.wins_per_player@);
}

} // verus!
