//! Replay: a game is fixed by its seed and its seats' choices.
//!
//! The generator's every outcome is a function of its seed and the uses
//! made of it before (`crate::rng`), the deck is dealt and refilled by it,
//! and every other step of a game is a function of the position; every
//! strategy's pick, and its use of the generator, is a function of what it
//! sees and of the generator's state (`Strategy::decide`). So two games
//! dealt from one seed for the same seats go through the same positions
//! and end with the same record.

use crate::card::Card;
use crate::game::{played_through, strategy_step};
use crate::history::{Action, GameHistory, TurnRecord};
use crate::interactive::{InteractiveGame, draw_log, drawn, same_action, same_game, same_needed, same_record};
use crate::moves::Move;
use crate::rng::{GameRng, advanced};
use crate::rules::StandardRules;
use crate::simulator::game_seed;
use crate::strategy::{Strategy, StrategyView};
use vstd::prelude::*;

verus! {

/// The two generators are at the same point of the same stream.
pub open spec fn same_stream(a: GameRng, b: GameRng) -> bool {
    a.seed_model() == b.seed_model() && a.calls_model() == b.calls_model()
}

/// Two action logs with the same contents.
pub open spec fn same_actions(a: Seq<Action>, b: Seq<Action>) -> bool {
    &&& a.len() == b.len()
    &&& forall|k: int| 0 <= k < a.len() ==> same_action(#[trigger] a[k], b[k])
}

/// Two lists of turn records with the same contents.
pub open spec fn same_turns(a: Seq<TurnRecord>, b: Seq<TurnRecord>) -> bool {
    &&& a.len() == b.len()
    &&& forall|k: int| 0 <= k < a.len() ==> same_record(#[trigger] a[k], b[k])
}

/// Two turns in progress (or none) with the same contents.
pub open spec fn same_turn(a: Option<TurnRecord>, b: Option<TurnRecord>) -> bool {
    match (a, b) {
        (None, None) => true,
        (Some(x), Some(y)) => same_record(x, y),
        _ => false,
    }
}

/// Two lists of names with the same text.
pub open spec fn same_names(a: Seq<String>, b: Seq<String>) -> bool {
    &&& a.len() == b.len()
    &&& forall|k: int| 0 <= k < a.len() ==> (#[trigger] a[k])@ == b[k]@
}

/// Two game records with the same contents.
pub open spec fn same_history(a: GameHistory, b: GameHistory) -> bool {
    &&& a.seed == b.seed
    &&& a.num_players == b.num_players
    &&& same_names(a.strategy_names@, b.strategy_names@)
    &&& a.rules_name@ == b.rules_name@
    &&& a.initial_deck_order@ == b.initial_deck_order@
    &&& a.starting_player == b.starting_player
    &&& same_turns(a.turns@, b.turns@)
    &&& a.winners@ == b.winners@
    &&& a.truncated == b.truncated
}

/// Two games in the same position with the generator at the same point,
/// compared by contents.
pub open spec fn alike(a: InteractiveGame, b: InteractiveGame) -> bool {
    &&& a.rules_model().is_play_out() == b.rules_model().is_play_out()
    &&& a.max_turns_model() == b.max_turns_model()
    &&& a.hands_model() == b.hands_model()
    &&& same_history(a.hist(), b.hist())
    &&& a.board_model() == b.board_model()
    &&& a.deck_model() == b.deck_model()
    &&& a.discard_model() == b.discard_model()
    &&& a.current_model() == b.current_model()
    &&& a.victim_model() == b.victim_model()
    &&& same_stream(a.rng_model(), b.rng_model())
    &&& same_needed(a.needed(), b.needed())
    &&& same_turn(a.turn_model(), b.turn_model())
}

proof fn lemma_push_injective(s1: Seq<Card>, c1: Card, s2: Seq<Card>, c2: Card)
    requires
        s1.push(c1) == s2.push(c2),
    ensures
        s1 == s2,
        c1 == c2,
{
    assert(s1 =~= s1.push(c1).drop_last());
    assert(s2 =~= s2.push(c2).drop_last());
    assert(c1 == s1.push(c1).last());
}

proof fn lemma_draw_alike(
    deck: Seq<Card>,
    discard: Seq<Card>,
    c1: Card,
    c2: Card,
    k1: Seq<Card>,
    k2: Seq<Card>,
    d1: Seq<Card>,
    d2: Seq<Card>,
    a: GameRng,
    b: GameRng,
    a2: GameRng,
    b2: GameRng,
)
    requires
        same_stream(a, b),
        drawn(deck, discard, c1, k1, d1, a, a2),
        drawn(deck, discard, c2, k2, d2, b, b2),
    ensures
        c1 == c2,
        k1 == k2,
        d1 == d2,
        same_stream(a2, b2),
{
    if deck.len() == 0 {
        lemma_push_injective(k1, c1, k2, c2);
    }
}

proof fn lemma_same_action_refl(a: Action)
    ensures
        same_action(a, a),
{
}

proof fn lemma_logged_alike(
    log1: Seq<Action>,
    log2: Seq<Action>,
    a1: Seq<Action>,
    a2: Seq<Action>,
    card: Card,
    mv: Move,
    b: Seq<Seq<crate::board::SpaceId>>,
    player: crate::board::PlayerId,
    rest: Seq<Action>,
)
    requires
        same_actions(log1, log2),
        crate::interactive::logged_play(log1, a1, card, mv, b, player, rest),
        crate::interactive::logged_play(log2, a2, card, mv, b, player, rest),
    ensures
        same_actions(a1, a2),
{
    let n = log1.len() as int;
    assert forall|k: int| 0 <= k < a1.len() implies same_action(#[trigger] a1[k], a2[k]) by {
        if k < n {
            assert(a1[k] == a1.subrange(0, n)[k]);
            assert(a2[k] == a2.subrange(0, n)[k]);
        } else if k == n {
        } else {
            assert(a1[k] == a1.subrange(n + 1, a1.len() as int)[k - n - 1]);
            assert(a2[k] == a2.subrange(n + 1, a2.len() as int)[k - n - 1]);
            lemma_same_action_refl(a1[k]);
        }
    }
}

proof fn lemma_same_actions_refl(a: Seq<Action>)
    ensures
        same_actions(a, a),
{
    assert forall|k: int| 0 <= k < a.len() implies same_action(#[trigger] a[k], a[k]) by {
        lemma_same_action_refl(a[k]);
    }
}

/// Playing the same card and move from alike positions leads to alike
/// positions.
pub proof fn lemma_step_alike(g1: InteractiveGame, g2: InteractiveGame, h1: InteractiveGame, h2: InteractiveGame, card: Card, mv: Move)
    requires
        alike(g1, g2),
        InteractiveGame::after_play(&g1, &h1, card, mv),
        InteractiveGame::after_play(&g2, &h2, card, mv),
    ensures
        alike(h1, h2),
{
    let player = g1.current_model();
    let r = crate::apply::spec_apply_move(g1.board_model(), player, mv);
    let b1 = r.0;
    let d1 = g1.discard_model().push(card);
    let won = crate::rules::spec_is_winner(b1, player);
    let log1 = g1.turn_model()->Some_0.actions@;
    let log2 = g2.turn_model()->Some_0.actions@;
    assert(same_actions(log1, log2)) by {
        assert forall|k: int| 0 <= k < log1.len() implies same_action(#[trigger] log1[k], log2[k]) by {
            assert(same_record(g1.turn_model()->Some_0, g2.turn_model()->Some_0));
        }
    }
    if !won && card == Card::Two {
        let c1 = choose|c: Card|
            drawn(g1.deck_model(), d1, c, h1.deck_model(), h1.discard_model(), g1.rng_model(), h1.rng_model())
                && crate::interactive::asks_move(h1.needed(), player, c, b1) && h1.turn_model() is Some
                && h1.turn_model()->Some_0.player == player && crate::interactive::logged_play(
                log1,
                h1.turn_model()->Some_0.actions@,
                card,
                mv,
                g1.board_model(),
                player,
                seq![Action::ExtraTurnGranted] + draw_log(g1.deck_model(), c),
            );
        let c2 = choose|c: Card|
            drawn(g2.deck_model(), d1, c, h2.deck_model(), h2.discard_model(), g2.rng_model(), h2.rng_model())
                && crate::interactive::asks_move(h2.needed(), player, c, b1) && h2.turn_model() is Some
                && h2.turn_model()->Some_0.player == player && crate::interactive::logged_play(
                log2,
                h2.turn_model()->Some_0.actions@,
                card,
                mv,
                g2.board_model(),
                player,
                seq![Action::ExtraTurnGranted] + draw_log(g2.deck_model(), c),
            );
        lemma_draw_alike(
            g1.deck_model(),
            d1,
            c1,
            c2,
            h1.deck_model(),
            h2.deck_model(),
            h1.discard_model(),
            h2.discard_model(),
            g1.rng_model(),
            g2.rng_model(),
            h1.rng_model(),
            h2.rng_model(),
        );
        lemma_logged_alike(
            log1,
            log2,
            h1.turn_model()->Some_0.actions@,
            h2.turn_model()->Some_0.actions@,
            card,
            mv,
            g1.board_model(),
            player,
            seq![Action::ExtraTurnGranted] + draw_log(g1.deck_model(), c1),
        );
    } else {
        let t1 = h1.hist().turns@;
        let t2 = h2.hist().turns@;
        let n0 = g1.hist().turns@.len();
        lemma_logged_alike(
            log1,
            log2,
            t1.last().actions@,
            t2.last().actions@,
            card,
            mv,
            g1.board_model(),
            player,
            seq![],
        );
        assert(same_turns(t1, t2)) by {
            assert forall|k: int| 0 <= k < t1.len() implies same_record(#[trigger] t1[k], t2[k]) by {
                if k < n0 {
                    assert(t1[k] == t1.subrange(0, n0 as int)[k]);
                    assert(t2[k] == t2.subrange(0, n0 as int)[k]);
                    assert(same_record(g1.hist().turns@[k], g2.hist().turns@[k]));
                }
            }
        }
        let w0 = g1.hist().winners@;
        let w1 = if won && !w0.contains(player) {
            w0.push(player)
        } else {
            w0
        };
        let n = g1.num_players_model();
        let po = g1.rules_model().is_play_out();
        if !crate::rules::spec_game_over(po, w1, n) {
            let nxt = crate::interactive::next_seat(player, w1, n);
            if h1.hist().turns@.len() < g1.max_turns_model() {
                let c1 = choose|c: Card|
                    drawn(g1.deck_model(), d1, c, h1.deck_model(), h1.discard_model(), g1.rng_model(), h1.rng_model())
                        && crate::interactive::asks_move(h1.needed(), nxt, c, b1) && h1.turn_model() is Some
                        && h1.turn_model()->Some_0.player == nxt && h1.turn_model()->Some_0.actions@ == draw_log(
                        g1.deck_model(),
                        c,
                    );
                let c2 = choose|c: Card|
                    drawn(g2.deck_model(), d1, c, h2.deck_model(), h2.discard_model(), g2.rng_model(), h2.rng_model())
                        && crate::interactive::asks_move(h2.needed(), nxt, c, b1) && h2.turn_model() is Some
                        && h2.turn_model()->Some_0.player == nxt && h2.turn_model()->Some_0.actions@ == draw_log(
                        g2.deck_model(),
                        c,
                    );
                lemma_draw_alike(
                    g1.deck_model(),
                    d1,
                    c1,
                    c2,
                    h1.deck_model(),
                    h2.deck_model(),
                    h1.discard_model(),
                    h2.discard_model(),
                    g1.rng_model(),
                    g2.rng_model(),
                    h1.rng_model(),
                    h2.rng_model(),
                );
                lemma_same_actions_refl(h1.turn_model()->Some_0.actions@);
            }
        }
    }
}

proof fn lemma_strategy_step_alike<S: Strategy>(
    seats1: Seq<S>,
    seats2: Seq<S>,
    g1: InteractiveGame,
    g2: InteractiveGame,
    h1: InteractiveGame,
    h2: InteractiveGame,
)
    requires
        seats1 == seats2,
        alike(g1, g2),
        strategy_step(seats1, g1, h1),
        strategy_step(seats2, g2, h2),
    ensures
        alike(h1, h2),
{
    let player = g1.needed()->ChooseMove_player;
    let card = g1.needed()->ChooseMove_card;
    let l1 = g1.needed()->ChooseMove_legal_moves@;
    let l2 = g2.needed()->ChooseMove_legal_moves@;
    assert(l1 == l2);
    let (v1, mv1, m1) = choose|v: StrategyView, mv: Move, m: InteractiveGame|
        #![trigger InteractiveGame::is_view_of(&g1, &v, player, Some(card)), InteractiveGame::after_play(&m, &h1, card, mv)]
        InteractiveGame::is_view_of(&g1, &v, player, Some(card)) && mv == seats1[player.0 as int].decide(
            v@,
            card,
            l1,
            g1.rng_model().seed_model(),
            g1.rng_model().calls_model(),
        ).0 && advanced(
            g1.rng_model(),
            m.rng_model(),
            seats1[player.0 as int].decide(v@, card, l1, g1.rng_model().seed_model(), g1.rng_model().calls_model()).1,
        ) && l1.contains(mv) && same_game(&g1, &m) && m.wf() && InteractiveGame::after_play(&m, &h1, card, mv);
    let (v2, mv2, m2) = choose|v: StrategyView, mv: Move, m: InteractiveGame|
        #![trigger InteractiveGame::is_view_of(&g2, &v, player, Some(card)), InteractiveGame::after_play(&m, &h2, card, mv)]
        InteractiveGame::is_view_of(&g2, &v, player, Some(card)) && mv == seats2[player.0 as int].decide(
            v@,
            card,
            l2,
            g2.rng_model().seed_model(),
            g2.rng_model().calls_model(),
        ).0 && advanced(
            g2.rng_model(),
            m.rng_model(),
            seats2[player.0 as int].decide(v@, card, l2, g2.rng_model().seed_model(), g2.rng_model().calls_model()).1,
        ) && l2.contains(mv) && same_game(&g2, &m) && m.wf() && InteractiveGame::after_play(&m, &h2, card, mv);
    assert(v1@.hand =~= v2@.hand);
    assert(v1@.positions =~= v2@.positions);
    assert(v1@.discard =~= v2@.discard);
    assert(v1@ == v2@);
    assert(mv1 == mv2);
    assert(same_stream(m1.rng_model(), m2.rng_model()));
    assert(alike(m1, m2));
    lemma_step_alike(m1, m2, h1, h2, card, mv1);
}

proof fn lemma_prefix_alike<S: Strategy>(
    seats1: Seq<S>,
    seats2: Seq<S>,
    t1: Seq<InteractiveGame>,
    t2: Seq<InteractiveGame>,
    k: int,
)
    requires
        seats1 == seats2,
        t1.len() >= 1,
        t2.len() >= 1,
        alike(t1[0], t2[0]),
        forall|i: int| 0 <= i < t1.len() - 1 ==> #[trigger] strategy_step(seats1, t1[i], t1[i + 1]),
        forall|i: int| 0 <= i < t2.len() - 1 ==> #[trigger] strategy_step(seats2, t2[i], t2[i + 1]),
        0 <= k < t1.len(),
        k < t2.len(),
    ensures
        alike(t1[k], t2[k]),
    decreases k,
{
    if k > 0 {
        lemma_prefix_alike(seats1, seats2, t1, t2, k - 1);
        let j = k - 1;
        assert(strategy_step(seats1, t1[j], t1[j + 1]));
        assert(strategy_step(seats2, t2[j], t2[j + 1]));
        lemma_strategy_step_alike(seats1, seats2, t1[j], t2[j], t1[j + 1], t2[j + 1]);
    }
}

/// Replay: two games played to their end from alike positions by the same
/// seats take the same number of steps and end with the same record.
pub proof fn lemma_replay<S: Strategy>(
    seats1: Seq<S>,
    seats2: Seq<S>,
    t1: Seq<InteractiveGame>,
    t2: Seq<InteractiveGame>,
    s1: InteractiveGame,
    s2: InteractiveGame,
    h1: GameHistory,
    h2: GameHistory,
)
    requires
        seats1 == seats2,
        alike(s1, s2),
        played_through(seats1, t1, s1, h1),
        played_through(seats2, t2, s2, h2),
    ensures
        t1.len() == t2.len(),
        same_history(h1, h2),
{
    if t1.len() < t2.len() {
        let k = t1.len() - 1;
        lemma_prefix_alike(seats1, seats2, t1, t2, k);
        assert(strategy_step(seats2, t2[k], t2[k + 1]));
    } else if t2.len() < t1.len() {
        let k = t2.len() - 1;
        lemma_prefix_alike(seats1, seats2, t1, t2, k);
        assert(strategy_step(seats1, t1[k], t1[k + 1]));
    } else {
        lemma_prefix_alike(seats1, seats2, t1, t2, t1.len() - 1);
    }
}

/// Two fresh games for the same rules variant, seat names and seed are
/// alike.
pub proof fn lemma_fresh_alike(
    s1: InteractiveGame,
    s2: InteractiveGame,
    rules1: StandardRules,
    rules2: StandardRules,
    names1: Vec<String>,
    names2: Vec<String>,
    seed: u64,
)
    requires
        rules1.is_play_out() == rules2.is_play_out(),
        same_names(names1@, names2@),
        InteractiveGame::is_fresh(&s1, rules1, names1, seed),
        InteractiveGame::is_fresh(&s2, rules2, names2, seed),
    ensures
        alike(s1, s2),
{
    assert(s1.hist().winners@ =~= s2.hist().winners@);
    assert(s1.hist().turns@ =~= s2.hist().turns@);
    lemma_same_actions_refl(s1.turn_model()->Some_0.actions@);
}

/// Same seed, same game: two games dealt by the same rules variant, seat
/// names and seed, played to their end by the same seats, end with the
/// same record.
pub proof fn lemma_same_seed_same_game<S: Strategy>(
    seats1: Seq<S>,
    seats2: Seq<S>,
    rules1: StandardRules,
    rules2: StandardRules,
    names1: Vec<String>,
    names2: Vec<String>,
    seed: u64,
    s1: InteractiveGame,
    s2: InteractiveGame,
    t1: Seq<InteractiveGame>,
    t2: Seq<InteractiveGame>,
    h1: GameHistory,
    h2: GameHistory,
)
    requires
        seats1 == seats2,
        rules1.is_play_out() == rules2.is_play_out(),
        same_names(names1@, names2@),
        InteractiveGame::is_fresh(&s1, rules1, names1, seed),
        InteractiveGame::is_fresh(&s2, rules2, names2, seed),
        played_through(seats1, t1, s1, h1),
        played_through(seats2, t2, s2, h2),
    ensures
        same_history(h1, h2),
{
    lemma_fresh_alike(s1, s2, rules1, rules2, names1, names2, seed);
    lemma_replay(seats1, seats2, t1, t2, s1, s2, h1, h2);
}

/// One bot turn: `g0` asks for a move; `g1` is `g0` after
/// `get_bot_action` returned `mv` for the seat to move (the position
/// unchanged, the move legal, and the seat's strategy's pick from what it
/// sees and the generator's state, the generator moved by the pick's uses);
/// `g2` is `g1` after `apply_action` played `mv`.
pub open spec fn bot_turn<S: Strategy>(seats: Seq<S>, g0: InteractiveGame, g1: InteractiveGame, g2: InteractiveGame, mv: Move) -> bool {
    &&& g0.needed() is ChooseMove
    &&& g1.wf()
    &&& same_game(&g0, &g1)
    &&& g0.needed()->ChooseMove_legal_moves@.contains(mv)
    &&& exists|v: StrategyView|
        #![trigger InteractiveGame::is_view_of(&g0, &v, g0.needed()->ChooseMove_player, Some(g0.needed()->ChooseMove_card))]
        InteractiveGame::is_view_of(&g0, &v, g0.needed()->ChooseMove_player, Some(g0.needed()->ChooseMove_card))
            && mv == seats[g0.needed()->ChooseMove_player.0 as int].decide(
            v@,
            g0.needed()->ChooseMove_card,
            g0.needed()->ChooseMove_legal_moves@,
            g0.rng_model().seed_model(),
            g0.rng_model().calls_model(),
        ).0 && advanced(
            g0.rng_model(),
            g1.rng_model(),
            seats[g0.needed()->ChooseMove_player.0 as int].decide(
                v@,
                g0.needed()->ChooseMove_card,
                g0.needed()->ChooseMove_legal_moves@,
                g0.rng_model().seed_model(),
                g0.rng_model().calls_model(),
            ).1,
        )
    &&& InteractiveGame::after_play(&g1, &g2, g0.needed()->ChooseMove_card, mv)
}

/// A bot's turn is a step of play: where `g0` asks for a move, `g1` is the
/// game after `get_bot_action` for the seat to move returned `mv` (the
/// position unchanged, the move legal and chosen by that seat's strategy
/// from the position and the generator), and `g2` is the game after
/// `apply_action` played `mv` on `g1`, then `g0` to `g2` is a step of play
/// by `seats`. So a game driven turn by turn with bots, from the same
/// opening, is a game played through as `Game::play` plays it.
pub proof fn lemma_bot_turn<S: Strategy>(
    seats: Seq<S>,
    g0: InteractiveGame,
    g1: InteractiveGame,
    g2: InteractiveGame,
    mv: Move,
)
    requires
        bot_turn(seats, g0, g1, g2, mv),
    ensures
        strategy_step(seats, g0, g2),
{
    let player = g0.needed()->ChooseMove_player;
    let card = g0.needed()->ChooseMove_card;
    let legal = g0.needed()->ChooseMove_legal_moves@;
    let v = choose|v: StrategyView|
        #![trigger InteractiveGame::is_view_of(&g0, &v, player, Some(card))]
        InteractiveGame::is_view_of(&g0, &v, player, Some(card)) && mv == seats[player.0 as int].decide(
            v@,
            card,
            legal,
            g0.rng_model().seed_model(),
            g0.rng_model().calls_model(),
        ).0 && advanced(
            g0.rng_model(),
            g1.rng_model(),
            seats[player.0 as int].decide(v@, card, legal, g0.rng_model().seed_model(), g0.rng_model().calls_model()).1,
        );
    assert(InteractiveGame::is_view_of(&g0, &v, player, Some(card)));
    assert(InteractiveGame::after_play(&g1, &g2, card, mv));
}

/// `g2` follows `g0` by one bot turn.
pub open spec fn bot_step<S: Strategy>(seats: Seq<S>, g0: InteractiveGame, g2: InteractiveGame) -> bool {
    exists|g1: InteractiveGame, mv: Move| #[trigger] bot_turn(seats, g0, g1, g2, mv)
}

/// A game driven turn by turn with bots to its end is a game played
/// through by those bots: so, from the same opening, it ends with the
/// record `Game::play` gives.
pub proof fn lemma_bot_drive<S: Strategy>(seats: Seq<S>, trace: Seq<InteractiveGame>, h: GameHistory)
    requires
        trace.len() >= 1,
        forall|k: int| 0 <= k < trace.len() - 1 ==> #[trigger] bot_step(seats, trace[k], trace[k + 1]),
        trace.last().needed() is GameOver,
        trace.last().hist() == h,
    ensures
        played_through(seats, trace, trace[0], h),
{
    assert forall|k: int| 0 <= k < trace.len() - 1 implies #[trigger] strategy_step(seats, trace[k], trace[k + 1]) by {
        assert(bot_step(seats, trace[k], trace[k + 1]));
        let (g1, mv) = choose|g1: InteractiveGame, mv: Move| #[trigger] bot_turn(seats, trace[k], g1, trace[k + 1], mv);
        lemma_bot_turn(seats, trace[k], g1, trace[k + 1], mv);
    }
}

/// `s` is the opening of a game dealt with `seed` for `seats`, under the
/// rules variant `play_out`, each seat named after its strategy.
pub open spec fn dealt<S: Strategy>(seats: Seq<S>, s: InteractiveGame, play_out: bool, seed: u64) -> bool {
    &&& seats.len() == s.hist().num_players
    &&& s.rules_model().is_play_out() == play_out
    &&& InteractiveGame::is_fresh(&s, s.rules_model(), s.hist().strategy_names, seed)
    &&& s.hist().strategy_names@.len() == seats.len()
    &&& forall|k: int| 0 <= k < seats.len() ==> (#[trigger] s.hist().strategy_names@[k])@ == seats[k].name_text()
}

/// `h` records a game played to its end by `seats`, dealt with `seed`
/// under the rules variant `play_out`.
pub open spec fn game_of<S: Strategy>(h: GameHistory, seed: u64, seats: Seq<S>, play_out: bool) -> bool {
    exists|s: InteractiveGame, t: Seq<InteractiveGame>| #[trigger] played_through(seats, t, s, h) && dealt(seats, s, play_out, seed)
}

/// `hs` records a batch of games played to their end by `seats`: game `i`
/// dealt with seed `base + i` (wrapping) under the rules variant
/// `play_out`.
pub open spec fn batch_of<S: Strategy>(hs: Seq<GameHistory>, base: u64, seats: Seq<S>, play_out: bool) -> bool {
    forall|i: int| 0 <= i < hs.len() ==> game_of(#[trigger] hs[i], game_seed(base, i), seats, play_out)
}

/// Batches repeat: two batches from the same base seed, seats and rules
/// variant record the same games.
pub proof fn lemma_batches_repeat<S: Strategy>(
    hs1: Seq<GameHistory>,
    hs2: Seq<GameHistory>,
    base: u64,
    seats: Seq<S>,
    play_out: bool,
)
    requires
        batch_of(hs1, base, seats, play_out),
        batch_of(hs2, base, seats, play_out),
        hs1.len() == hs2.len(),
    ensures
        forall|i: int| 0 <= i < hs1.len() ==> same_history(#[trigger] hs1[i], hs2[i]),
{
    assert forall|i: int| 0 <= i < hs1.len() implies same_history(#[trigger] hs1[i], hs2[i]) by {
        let h1 = hs1[i];
        let h2 = hs2[i];
        assert(game_of(h1, game_seed(base, i), seats, play_out));
        assert(game_of(h2, game_seed(base, i), seats, play_out));
        let (s1, t1) = choose|s: InteractiveGame, t: Seq<InteractiveGame>|
            #[trigger] played_through(seats, t, s, h1) && dealt(seats, s, play_out, game_seed(base, i));
        let (s2, t2) = choose|s: InteractiveGame, t: Seq<InteractiveGame>|
            #[trigger] played_through(seats, t, s, h2) && dealt(seats, s, play_out, game_seed(base, i));
        assert(same_names(s1.hist().strategy_names@, s2.hist().strategy_names@));
        lemma_same_seed_same_game(
            seats,
            seats,
            s1.rules_model(),
            s2.rules_model(),
            s1.hist().strategy_names,
            s2.hist().strategy_names,
            game_seed(base, i),
            s1,
            s2,
            t1,
            t2,
            h1,
            h2,
        );
    }
}

} // verus!
