//! Playing a whole game with one strategy per seat.
//!
//! `Game` hands every decision of an `InteractiveGame` to the seat's
//! strategy, so its history is the one the interactive machine records for
//! the same seed and the same choices.

use crate::apply::spec_apply_move;
use crate::board::PlayerId;
use crate::card::Card;
use crate::error::SorryError;
use crate::history::{Action, GameHistory};
use crate::interactive::{InteractiveGame, same_game, asks_move, draw_log, drawn, lemma_finished_game_result, logged_play};
use crate::rules::{StandardRules, spec_is_winner};
use crate::moves::Move;
use crate::rng::advanced;
use crate::strategy::{Strategy, StrategyView};
use vstd::multiset::Multiset;
use vstd::prelude::*;

verus! {

pub struct Game<S> {
    game: InteractiveGame,
    strategies: Vec<S>,
}

/// A record of a game that ended by play: under the standard rules a
/// single winner, under Play Out a ranking of every seat exactly once.
pub open spec fn decided(h: GameHistory, play_out: bool) -> bool {
    &&& !play_out ==> h.winners@.len() == 1
    &&& play_out ==> {
        &&& h.winners@.no_duplicates()
        &&& forall|k: int| 0 <= k < h.winners@.len() ==> (#[trigger] h.winners@[k]).0 < h.num_players
        &&& forall|i: int| 0 <= i < h.num_players ==> #[trigger] h.winners@.contains(PlayerId(i as u8))
    }
}

/// `h` follows `g` by the move that the strategy of the seat to move picks
/// for what that seat sees, applied as a play.
pub open spec fn strategy_step<S: Strategy>(seats: Seq<S>, g: InteractiveGame, h: InteractiveGame) -> bool {
    let player = g.needed()->ChooseMove_player;
    let card = g.needed()->ChooseMove_card;
    let legal = g.needed()->ChooseMove_legal_moves@;
    &&& g.needed() is ChooseMove
    &&& exists|v: StrategyView, mv: Move, m: InteractiveGame|
        #![trigger InteractiveGame::is_view_of(&g, &v, player, Some(card)), InteractiveGame::after_play(&m, &h, card, mv)]
        InteractiveGame::is_view_of(&g, &v, player, Some(card)) && mv == seats[player.0 as int].decide(
            v@,
            card,
            legal,
            g.rng_model().seed_model(),
            g.rng_model().calls_model(),
        ).0 && advanced(
            g.rng_model(),
            m.rng_model(),
            seats[player.0 as int].decide(v@, card, legal, g.rng_model().seed_model(), g.rng_model().calls_model()).1,
        ) && legal.contains(mv) && same_game(&g, &m) && m.wf() && InteractiveGame::after_play(&m, &h, card, mv)
}

/// `trace` is a game played from `start` to its end with `seats` making
/// every decision, ending with the record `h`.
pub open spec fn played_through<S: Strategy>(seats: Seq<S>, trace: Seq<InteractiveGame>, start: InteractiveGame, h: GameHistory) -> bool {
    &&& trace.len() >= 1
    &&& trace[0] == start
    &&& forall|k: int| 0 <= k < trace.len() - 1 ==> #[trigger] strategy_step(seats, trace[k], trace[k + 1])
    &&& trace.last().needed() is GameOver
    &&& trace.last().hist() == h
}

// ─── Why a game ends ────────────────────────────────────────────────────
//
// Every play either ends the turn (the turn count grows toward the limit,
// or the game ends) or, for a Two, grants an extra turn. A chain of extra
// turns draws only Twos: each draws one Two from the pile; a reshuffle
// happens only when the pile is empty, and puts every One back into it, so
// it cannot happen twice in a row without a One being drawn, which ends
// the chain.

/// 1 while the game runs, 0 once it is over.
spec fn live(g: InteractiveGame) -> int {
    if g.needed() is GameOver {
        0
    } else {
        1
    }
}

/// Turns still to complete before the turn limit.
spec fn turns_left(g: InteractiveGame) -> int {
    if g.hist().turns@.len() < g.max_turns_model() {
        g.max_turns_model() - g.hist().turns@.len()
    } else {
        0
    }
}

/// 1 when the card awaiting a move is a Two (which may grant an extra turn).
spec fn holding_two(g: InteractiveGame) -> int {
    if g.needed() is ChooseMove && g.needed()->ChooseMove_card == Card::Two {
        1
    } else {
        0
    }
}

/// 1 when the draw pile holds no One.
spec fn ones_gone(g: InteractiveGame) -> int {
    if g.deck_model().to_multiset().count(Card::One) == 0 {
        1
    } else {
        0
    }
}

/// How many Twos the draw pile holds.
spec fn twos_left(g: InteractiveGame) -> int {
    g.deck_model().to_multiset().count(Card::Two) as int
}

/// A play moves the game strictly down the order
/// (`live`, `turns_left`, `holding_two`, `ones_gone`, `twos_left`).
proof fn lemma_progress(g: InteractiveGame, h: InteractiveGame, card: Card, mv: Move)
    requires
        g.wf(),
        g.needed() is ChooseMove,
        card == g.needed()->ChooseMove_card,
        InteractiveGame::after_play(&g, &h, card, mv),
    ensures
        live(h) < live(g) || (live(h) == live(g) && (turns_left(h) < turns_left(g) || (turns_left(h) == turns_left(
            g,
        ) && (holding_two(h) < holding_two(g) || (holding_two(h) == holding_two(g) && (ones_gone(h) < ones_gone(g)
            || (ones_gone(h) == ones_gone(g) && twos_left(h) < twos_left(g)))))))),
{
    let player = g.current_model();
    let b1 = spec_apply_move(g.board_model(), player, mv).0;
    let won = spec_is_winner(b1, player);
    crate::interactive::lemma_cards_conserved(&g);
    crate::card::lemma_standard_deck_distribution(Card::One);
    let d1 = g.discard_model().push(card);
    if !won && card == Card::Two {
        let c = choose|c: Card|
            drawn(g.deck_model(), d1, c, h.deck_model(), h.discard_model(), g.rng_model(), h.rng_model()) && asks_move(h.needed(), player, c, b1)
                && h.turn_model() is Some && h.turn_model()->Some_0.player == player && logged_play(
                g.turn_model()->Some_0.actions@,
                h.turn_model()->Some_0.actions@,
                card,
                mv,
                g.board_model(),
                player,
                seq![Action::ExtraTurnGranted] + draw_log(g.deck_model(), c),
            );
        if c == Card::Two {
            if g.deck_model().len() > 0 {
                assert(g.deck_model() =~= h.deck_model().push(c));
                h.deck_model().to_multiset_ensures();
            } else {
                let dk = h.deck_model();
                dk.to_multiset_ensures();
                d1.to_multiset_ensures();
                g.discard_model().to_multiset_ensures();
                g.deck_model().to_multiset_ensures();
                seq![card].to_multiset_ensures();
                Seq::<Card>::empty().to_multiset_ensures();
                assert(seq![card] == Seq::<Card>::empty().push(card));
                assert(g.deck_model().to_multiset() =~= Multiset::empty());
                assert(dk.push(c).to_multiset().count(Card::One) == 5);
                assert(dk.to_multiset().count(Card::One) == 5);
            }
        }
    }
}

impl<S: Strategy> Game<S> {
    pub closed spec fn wf(&self) -> bool {
        &&& self.game.wf()
        &&& self.strategies@.len() == self.game.num_players_model()
        &&& !self.game.hist().truncated
        &&& self.game.hist().turns@.len() == 0
        &&& !(self.game.needed() is GameOver)
    }

    /// The position the game is in.
    pub closed spec fn state(&self) -> InteractiveGame {
        self.game
    }

    pub closed spec fn seats(&self) -> Seq<S> {
        self.strategies@
    }

    /// A game with one seat per strategy, shuffled and started with `seed`.
    pub fn new(rules: StandardRules, strategies: Vec<S>, seed: u64) -> (r: Result<Self, SorryError>)
        requires
            rules.wf(),
        ensures
            strategies@.len() < 2 ==> r == Err::<Self, SorryError>(
                SorryError::NotEnoughPlayers { min: 2, got: strategies@.len() as usize },
            ),
            strategies@.len() > 4 ==> r == Err::<Self, SorryError>(
                SorryError::TooManyPlayers { max: 4, got: strategies@.len() as usize },
            ),
            2 <= strategies@.len() <= 4 ==> r is Ok && r->Ok_0.wf() && r->Ok_0.seats() == strategies@
                && r->Ok_0.state().hist().strategy_names@.len() == strategies@.len() && (forall|i: int|
                0 <= i < strategies@.len() ==> (#[trigger] r->Ok_0.state().hist().strategy_names@[i])@
                    == strategies@[i].name_text())
                && r->Ok_0.state().num_players_model() == strategies@.len() && InteractiveGame::is_fresh(
                &r->Ok_0.state(),
                rules,
                r->Ok_0.state().hist().strategy_names,
                seed,
            ),
    {
        let n = strategies.len();
        if n < rules.min_players() {
            return Err(SorryError::NotEnoughPlayers { min: rules.min_players(), got: n });
        }
        if n > rules.max_players() {
            return Err(SorryError::TooManyPlayers { max: rules.max_players(), got: n });
        }
        let mut names: Vec<String> = Vec::new();
        let mut i: usize = 0;
        while i < n
            invariant
                i <= n == strategies@.len(),
                names@.len() == i,
                forall|k: int| 0 <= k < i ==> (#[trigger] names@[k])@ == strategies@[k].name_text(),
            decreases n - i,
        {
            names.push(strategies[i].name().to_owned());
            i = i + 1;
        }
        let game = InteractiveGame::new_with_strategy_names(rules, names, seed)?;
        Ok(Game { game, strategies })
    }

    /// Changes the number of turns after which the game is cut off.
    pub fn set_max_turns(&mut self, limit: usize)
        requires
            old(self).wf(),
        ensures
            final(self).wf(),
            final(self).state().max_turns_model() == limit,
            final(self).state().hist() == old(self).state().hist(),
            final(self).seats() == old(self).seats(),
    {
        self.game.set_max_turns(limit);
    }

    /// Plays to the end, each seat's strategy answering its decisions, and
    /// returns the record. The game ends by play (with its result) or at the
    /// turn limit (`truncated`, with at least that many turns recorded).
    /// Every game ends: see `lemma_progress`.
    pub fn play(self) -> (r: Result<GameHistory, SorryError>)
        requires
            self.wf(),
        ensures
            r is Ok,
            r is Ok ==> r->Ok_0.turns@.len() >= 1,
            r is Ok ==> exists|trace: Seq<InteractiveGame>|
                #[trigger] played_through(self.seats(), trace, self.state(), r->Ok_0),
            r is Ok ==> r->Ok_0.truncated ==> r->Ok_0.turns@.len() >= self.state().max_turns_model(),
            r is Ok && r->Ok_0.truncated && self.state().max_turns_model() > 0 ==> r->Ok_0.turns@.len()
                == self.state().max_turns_model(),
            r is Ok ==> r->Ok_0.seed == self.state().hist().seed,
            r is Ok ==> r->Ok_0.num_players == self.state().hist().num_players,
            r is Ok ==> r->Ok_0.strategy_names == self.state().hist().strategy_names,
            r is Ok ==> r->Ok_0.rules_name == self.state().hist().rules_name,
            r is Ok ==> r->Ok_0.initial_deck_order == self.state().hist().initial_deck_order,
            r is Ok ==> r->Ok_0.starting_player == self.state().hist().starting_player,
            r is Ok ==> r->Ok_0.winners@.no_duplicates(),
            r is Ok ==> forall|k: int|
                0 <= k < r->Ok_0.turns@.len() ==> (#[trigger] r->Ok_0.turns@[k]).player.0 < r->Ok_0.num_players,
            r is Ok ==> !r->Ok_0.truncated ==> decided(r->Ok_0, self.state().rules_model().is_play_out()),
    {
        let ghost g0 = self.game;
        let ghost mut trace: Seq<InteractiveGame> = seq![self.game];
        let strategies = self.strategies;
        let mut game = self.game;
        while !game.is_over()
            invariant
                game.wf(),
                strategies@.len() == game.num_players_model(),
                g0.same_setup(&game),
                g0 == self.game,
                strategies@ == self.strategies@,
                trace.len() >= 1,
                trace[0] == g0,
                trace.last() == game,
                forall|k: int| 0 <= k < trace.len() - 1 ==> #[trigger] strategy_step(strategies@, trace[k], trace[k + 1]),
                game.hist().truncated ==> game.hist().turns@.len() >= g0.max_turns_model(),
                game.hist().truncated && g0.max_turns_model() > 0 ==> game.hist().turns@.len() == g0.max_turns_model(),
                game.needed() is GameOver ==> game.hist().turns@.len() >= 1,
                !(game.needed() is GameOver) ==> game.hist().turns@.len() < g0.max_turns_model() || game.hist().turns@.len() == 0,
            decreases live(game), turns_left(game), holding_two(game), ones_gone(game), twos_left(game),
        {
            proof {
                crate::interactive::lemma_running_game_offers_legal_moves(&game);
            }
            let seat = game.current_player();
            let ghost before = game;
            let action = game.get_bot_action(&strategies[seat.0 as usize])?;
            let ghost mid = game;
            game.apply_action(action)?;
            proof {
                let player = before.needed()->ChooseMove_player;
                let card = before.needed()->ChooseMove_card;
                let mv = action->PlayMove_mv;
                let v = choose|v: StrategyView|
                    #![trigger InteractiveGame::is_view_of(&before, &v, player, Some(card))]
                    InteractiveGame::is_view_of(&before, &v, player, Some(card)) && mv == strategies@[seat.0 as int].decide(
                        v@,
                        card,
                        before.needed()->ChooseMove_legal_moves@,
                        before.rng_model().seed_model(),
                        before.rng_model().calls_model(),
                    ).0 && advanced(
                        before.rng_model(),
                        mid.rng_model(),
                        strategies@[seat.0 as int].decide(
                            v@,
                            card,
                            before.needed()->ChooseMove_legal_moves@,
                            before.rng_model().seed_model(),
                            before.rng_model().calls_model(),
                        ).1,
                    );
                assert(InteractiveGame::after_play(&mid, &game, card, mv));
                assert(strategy_step(strategies@, before, game));
                lemma_progress(mid, game, card, mv);
                let old_trace = trace;
                trace = trace.push(game);
                assert forall|k: int| 0 <= k < trace.len() - 1 implies #[trigger] strategy_step(
                    strategies@,
                    trace[k],
                    trace[k + 1],
                ) by {
                    if k < old_trace.len() - 1 {
                        assert(trace[k] == old_trace[k]);
                        assert(trace[k + 1] == old_trace[k + 1]);
                    }
                }
            }
        }
        proof {
            assert(played_through(strategies@, trace, g0, game.hist()));
            lemma_finished_game_result(&game);
            crate::interactive::lemma_winners_are_distinct_seats(&game);
        }
        let h = game.into_history();
        proof {
            assert(self.seats() == strategies@);
            assert(played_through(self.seats(), trace, self.state(), h));
        }
        let r: Result<GameHistory, SorryError> = Ok(h);
        proof {
            assert(r->Ok_0 == h);
            assert(played_through(self.seats(), trace, self.state(), r->Ok_0));
        }
        r
    }
}

} // verus!
