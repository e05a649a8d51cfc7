//! The turn-by-turn state machine: a game that stops at every decision and
//! waits for a player (human or bot) to answer it.
//!
//! Every draw, play, extra turn and turn hand-off is recorded in the
//! `GameHistory`; a game driven entirely by bots produces the same history
//! as `Game::play` for the same seed, because `Game::play` drives this very
//! machine.

use crate::apply::{
    BumpEvent, SlideEvent, apply_move, events_name_seats, lemma_bumps_name_seats, same_shape,
    slides_view, spec_apply_move,
};
use crate::board::{BoardState, PlayerId, SpaceId, board_shape_ok};
use crate::card::{Card, spec_standard_deck};
use crate::error::SorryError;
use crate::history::{Action, GameHistory, TurnRecord};
use crate::move_laws::lemma_legal_moves_obey_rules;
use crate::moves::{Move, contains_move, legal_moves, moves_board_ok, spec_legal_moves};
use crate::rng::{RngCall, advanced, permuted, seeded_rng, shuffle_order, shuffle_vec};
use crate::rules::{seat_ids, 
    StandardRules, spec_finalize_winners, spec_game_over, spec_is_winner, spec_start_area_id,
};
use crate::strategy::{Strategy, StrategyView, legal_ok, positions, view_ok};
use crate::rng::GameRng;
use vstd::multiset::Multiset;
use vstd::prelude::*;

verus! {

broadcast use {vstd::seq_lib::group_seq_properties, vstd::multiset::group_multiset_axioms};

/// Turns after which an unfinished game is cut off.
pub const DEFAULT_MAX_TURNS: usize = 5000;

/// The decision the game is waiting on.
///
/// Standard Sorry! (hand size 0) never asks for a card: the draw is resolved
/// automatically and the pending decision is always `ChooseMove` or
/// `GameOver`.
#[derive(Debug, Clone, PartialEq, Eq)]
pub enum ActionNeeded {
    /// Rules with a persistent hand: pick which card to play.
    ChooseCard { player: PlayerId, hand: Vec<Card>, legal_card_indices: Vec<usize> },
    /// `player` must pick one of `legal_moves` for `card`.
    ChooseMove { player: PlayerId, card: Card, legal_moves: Vec<Move> },
    GameOver { winners: Vec<PlayerId>, truncated: bool },
}

/// A caller's answer to the pending decision.
#[derive(Debug, Clone, Copy, PartialEq, Eq, Structural)]
pub enum PlayerAction {
    ChooseCard { hand_index: usize },
    PlayMove { mv: Move },
}

/// Everything the game holds, for local play and debugging.
#[derive(Debug, Clone)]
pub struct InteractiveGameState {
    pub num_players: usize,
    pub current_player: PlayerId,
    pub starting_player: PlayerId,
    pub pawn_positions: Vec<Vec<SpaceId>>,
    pub discard: Vec<Card>,
    pub deck_remaining: usize,
    pub hands: Vec<Vec<Card>>,
    pub drawn_card: Option<Card>,
    pub rules_name: String,
    pub strategy_names: Vec<String>,
    pub action_needed: ActionNeeded,
    pub winners: Vec<PlayerId>,
    pub truncated: bool,
    pub turn_count: usize,
    /// The turn being assembled; it joins the history when the turn ends.
    pub current_turn: Option<TurnRecord>,
    /// `seat_sides[p]` is the board side of engine player `p`.
    pub seat_sides: Vec<u8>,
}

/// What one seat (or a spectator) may see: other players' hands and the
/// face-up card in play are hidden from everyone but their owner.
#[derive(Debug, Clone)]
pub struct PlayerView {
    pub viewer: PlayerId,
    pub num_players: usize,
    pub current_player: PlayerId,
    pub starting_player: PlayerId,
    pub pawn_positions: Vec<Vec<SpaceId>>,
    pub discard: Vec<Card>,
    pub deck_remaining: usize,
    /// `hands[p]` is `Some` only for `p == viewer`.
    pub hands: Vec<Option<Vec<Card>>>,
    /// The card the viewer has drawn and not yet played.
    pub drawn_card: Option<Card>,
    pub rules_name: String,
    pub strategy_names: Vec<String>,
    pub action_needed: ActionNeeded,
    pub winners: Vec<PlayerId>,
    pub truncated: bool,
    pub turn_count: usize,
    pub seat_sides: Vec<u8>,
}

pub struct InteractiveGame {
    rules: StandardRules,
    board: BoardState,
    rng: GameRng,
    deck: Vec<Card>,
    discard: Vec<Card>,
    hands: Vec<Vec<Card>>,
    history: GameHistory,
    current: PlayerId,
    max_turns: usize,
    action_needed: ActionNeeded,
    /// The turn being played; `None` once the game is over.
    current_turn: Option<TurnRecord>,
    /// The player most recently bumped back to Start.
    last_bump_victim: Option<PlayerId>,
}

// ─── Specification vocabulary ───────────────────────────────────────────

/// The card drawn and not yet played, if any.
pub open spec fn pending_cards(a: ActionNeeded) -> Seq<Card> {
    match a {
        ActionNeeded::ChooseMove { card, .. } => seq![card],
        _ => Seq::empty(),
    }
}

/// Every card in the deck, the discard pile and the pending slot.
pub open spec fn cards_held(deck: Seq<Card>, discard: Seq<Card>, pending: Seq<Card>) -> Multiset<Card> {
    deck.to_multiset().add(discard.to_multiset()).add(pending.to_multiset())
}

/// Drawing `card` takes the top (last) card of `deck`; an empty deck is
/// first refilled with the whole discard pile, in some order.
pub open spec fn draws_cards(deck: Seq<Card>, discard: Seq<Card>, card: Card, deck2: Seq<Card>, discard2: Seq<Card>) -> bool {
    if deck.len() > 0 {
        &&& card == deck.last()
        &&& deck2 == deck.drop_last()
        &&& discard2 == discard
    } else {
        &&& discard2 == Seq::<Card>::empty()
        &&& deck2.push(card).to_multiset() == discard.to_multiset()
    }
}

/// A draw as `draws_cards` describes it, the refill shuffled by the
/// generator (`rng` before the draw, `rng2` after it): the order is the
/// one the generator's seed and earlier uses fix.
pub open spec fn drawn(
    deck: Seq<Card>,
    discard: Seq<Card>,
    card: Card,
    deck2: Seq<Card>,
    discard2: Seq<Card>,
    rng: GameRng,
    rng2: GameRng,
) -> bool {
    &&& draws_cards(deck, discard, card, deck2, discard2)
    &&& if deck.len() > 0 {
        rng2 == rng
    } else {
        &&& deck2.push(card) == permuted(discard, shuffle_order(rng.seed_model(), rng.calls_model(), discard.len()))
        &&& rng2.seed_model() == rng.seed_model()
        &&& rng2.calls_model() == rng.calls_model().push(RngCall::Shuffle(discard.len() as usize))
    }
}

/// The actions a draw from `deck` records.
pub open spec fn draw_log(deck: Seq<Card>, card: Card) -> Seq<Action> {
    if deck.len() == 0 {
        seq![Action::Reshuffle, Action::Draw { card }]
    } else {
        seq![Action::Draw { card }]
    }
}

/// `a` records `player` playing `mv` with `card` on board `b`.
pub open spec fn is_play_of(a: Action, card: Card, mv: Move, b: Seq<Seq<SpaceId>>, player: PlayerId) -> bool {
    match a {
        Action::Play { card: c, mv: m, bumps, slides } => {
            &&& c == card
            &&& m == mv
            &&& bumps@ == spec_apply_move(b, player, mv).1
            &&& slides_view(slides@) == spec_apply_move(b, player, mv).2
        },
        _ => false,
    }
}

/// `log2` is `log`, then the record of the play, then `rest`.
pub open spec fn logged_play(
    log: Seq<Action>,
    log2: Seq<Action>,
    card: Card,
    mv: Move,
    b: Seq<Seq<SpaceId>>,
    player: PlayerId,
    rest: Seq<Action>,
) -> bool {
    &&& log2.len() == log.len() + 1 + rest.len()
    &&& log2.subrange(0, log.len() as int) == log
    &&& is_play_of(log2[log.len() as int], card, mv, b, player)
    &&& log2.subrange((log.len() + 1) as int, log2.len() as int) == rest
}

/// `a` asks `player` for a move with `card`, offering every legal move.
pub open spec fn asks_move(a: ActionNeeded, player: PlayerId, card: Card, b: Seq<Seq<SpaceId>>) -> bool {
    a matches ActionNeeded::ChooseMove { player: p, card: c, legal_moves } && p == player && c == card
        && legal_moves@ == spec_legal_moves(b, player, card)
}

/// `a` announces the end of the game with `winners`.
pub open spec fn announces_end(a: ActionNeeded, winners: Seq<PlayerId>, truncated: bool) -> bool {
    a matches ActionNeeded::GameOver { winners: w, truncated: t } && w@ == winners && t == truncated
}

/// The same decision, compared by contents.
pub open spec fn same_needed(a: ActionNeeded, b: ActionNeeded) -> bool {
    match (a, b) {
        (
            ActionNeeded::ChooseCard { player: p1, hand: h1, legal_card_indices: l1 },
            ActionNeeded::ChooseCard { player: p2, hand: h2, legal_card_indices: l2 },
        ) => p1 == p2 && h1@ == h2@ && l1@ == l2@,
        (
            ActionNeeded::ChooseMove { player: p1, card: c1, legal_moves: m1 },
            ActionNeeded::ChooseMove { player: p2, card: c2, legal_moves: m2 },
        ) => p1 == p2 && c1 == c2 && m1@ == m2@,
        (
            ActionNeeded::GameOver { winners: w1, truncated: t1 },
            ActionNeeded::GameOver { winners: w2, truncated: t2 },
        ) => w1@ == w2@ && t1 == t2,
        _ => false,
    }
}

/// From seat `s`, the first seat not in `winners`, trying at most `fuel`
/// seats cyclically; after `fuel` tries, the seat reached.
pub open spec fn seat_after(s: int, winners: Seq<PlayerId>, n: int, fuel: nat) -> int
    decreases fuel,
{
    if fuel == 0 || !winners.contains(PlayerId(s as u8)) {
        s
    } else {
        seat_after((s + 1) % n, winners, n, (fuel - 1) as nat)
    }
}

/// The seat that plays after `cur`: the next one, cyclically, that has not
/// finished.
pub open spec fn next_seat(cur: PlayerId, winners: Seq<PlayerId>, n: nat) -> PlayerId {
    PlayerId(seat_after((cur.0 + 1) % (n as int), winners, n as int, n) as u8)
}

/// The fresh board: every pawn of seat `p` on its Start area.
pub open spec fn start_board(n: nat) -> Seq<Seq<SpaceId>> {
    Seq::new(n, |p: int| Seq::new(4, |i: int| spec_start_area_id(PlayerId(p as u8))))
}

impl InteractiveGame {
    pub closed spec fn rules_model(&self) -> StandardRules {
        self.rules
    }

    pub closed spec fn board_model(&self) -> Seq<Seq<SpaceId>> {
        self.board@
    }

    /// The draw pile; its last card is drawn next.
    pub closed spec fn deck_model(&self) -> Seq<Card> {
        self.deck@
    }

    pub closed spec fn discard_model(&self) -> Seq<Card> {
        self.discard@
    }

    pub closed spec fn hands_model(&self) -> Seq<Seq<Card>> {
        self.hands@.map_values(|h: Vec<Card>| h@)
    }

    pub closed spec fn hist(&self) -> GameHistory {
        self.history
    }

    pub closed spec fn current_model(&self) -> PlayerId {
        self.current
    }

    pub closed spec fn max_turns_model(&self) -> nat {
        self.max_turns as nat
    }

    pub closed spec fn needed(&self) -> ActionNeeded {
        self.action_needed
    }

    pub closed spec fn turn_model(&self) -> Option<TurnRecord> {
        self.current_turn
    }

    /// The generator the game draws with.
    pub closed spec fn rng_model(&self) -> GameRng {
        self.rng
    }

    pub closed spec fn victim_model(&self) -> Option<PlayerId> {
        self.last_bump_victim
    }

    pub open spec fn num_players_model(&self) -> nat {
        self.hist().num_players as nat
    }

    /// The table itself is sound: rules, seats, board shape and hands.
    pub closed spec fn table_ok(&self) -> bool {
        let n = self.history.num_players;
        &&& self.rules.wf()
        &&& 2 <= n <= 4
        &&& self.board@.len() == n
        &&& forall|p: int| 0 <= p < n ==> (#[trigger] self.board@[p]).len() == 4
        &&& (self.current.0 as int) < n
        &&& (self.history.starting_player.0 as int) < n
        &&& self.hands@.len() == n
        &&& forall|p: int| 0 <= p < n ==> (#[trigger] self.hands@[p])@.len() == 0
        &&& self.last_bump_victim matches Some(v) ==> (v.0 as int) < n
        &&& self.history.winners@.no_duplicates()
        &&& forall|k: int| 0 <= k < self.history.winners@.len() ==> (#[trigger] self.history.winners@[k]).0 < n
        &&& forall|k: int| 0 <= k < self.history.turns@.len() ==> (#[trigger] self.history.turns@[k]).player.0 < n
    }

    /// A consistent game: the table is sound, the cards in the deck, the
    /// discard pile and the pending slot are exactly one standard deck, and
    /// the pending decision matches the board.
    pub closed spec fn wf(&self) -> bool {
        &&& self.table_ok()
        &&& cards_held(self.deck@, self.discard@, pending_cards(self.action_needed)) == spec_standard_deck().to_multiset()
        &&& match self.action_needed {
            ActionNeeded::ChooseMove { player, card, legal_moves } => {
                &&& player == self.current
                &&& legal_moves@ == spec_legal_moves(self.board@, self.current, card)
                &&& self.current_turn matches Some(t) && t.player == self.current
                &&& !self.history.truncated
                &&& !spec_game_over(self.rules.is_play_out(), self.history.winners@, self.history.num_players as nat)
                &&& !self.history.winners@.contains(self.current)
            },
            ActionNeeded::GameOver { winners, truncated } => {
                &&& self.current_turn is None
                &&& truncated == self.history.truncated
                &&& truncated ==> winners@ == Seq::<PlayerId>::empty()
                &&& !truncated ==> winners@ == self.history.winners@ && winners@.len() >= 1
                &&& !truncated && self.rules.is_play_out() ==> forall|i: int|
                    0 <= i < self.history.num_players ==> #[trigger] winners@.contains(PlayerId(i as u8))
                &&& !truncated && !self.rules.is_play_out() ==> winners@.len() == 1 && spec_is_winner(
                    self.board@,
                    winners@[0],
                )
            },
            ActionNeeded::ChooseCard { .. } => false,
        }
    }

    /// The setup that no turn changes.
    pub open spec fn same_setup(&self, other: &Self) -> bool {
        &&& other.rules_model() == self.rules_model()
        &&& other.max_turns_model() == self.max_turns_model()
        &&& other.hands_model() == self.hands_model()
        &&& other.hist().seed == self.hist().seed
        &&& other.hist().num_players == self.hist().num_players
        &&& other.hist().strategy_names == self.hist().strategy_names
        &&& other.hist().rules_name == self.hist().rules_name
        &&& other.hist().initial_deck_order == self.hist().initial_deck_order
        &&& other.hist().starting_player == self.hist().starting_player
    }

    /// `h` is `g` after `g`'s current player plays `mv` with `card`: the move
    /// is applied and recorded, the card is discarded, and the game goes on
    /// with an extra turn (a 2 that did not win), the end of the game, the
    /// turn limit, or the next unfinished seat's draw.
    pub open spec fn after_play(g: &Self, h: &Self, card: Card, mv: Move) -> bool {
        let player = g.current_model();
        let n = g.num_players_model();
        let r = spec_apply_move(g.board_model(), player, mv);
        let b1 = r.0;
        let d1 = g.discard_model().push(card);
        let won = spec_is_winner(b1, player);
        let log = g.turn_model()->Some_0.actions@;
        let w0 = g.hist().winners@;
        let w1 = if won && !w0.contains(player) {
            w0.push(player)
        } else {
            w0
        };
        let po = g.rules_model().is_play_out();
        let turns0 = g.hist().turns@;
        &&& g.same_setup(h)
        &&& h.board_model() == b1
        &&& h.victim_model() == (if r.1.len() > 0 {
            Some(r.1.last().player)
        } else {
            g.victim_model()
        })
        &&& if !won && card == Card::Two {
            &&& h.current_model() == player
            &&& h.hist().turns@ == turns0
            &&& h.hist().winners@ == w0
            &&& h.hist().truncated == g.hist().truncated
            &&& exists|c: Card|
                drawn(g.deck_model(), d1, c, h.deck_model(), h.discard_model(), g.rng_model(), h.rng_model()) && asks_move(
                    h.needed(),
                    player,
                    c,
                    b1,
                ) && h.turn_model() is Some && h.turn_model()->Some_0.player == player && logged_play(
                    log,
                    h.turn_model()->Some_0.actions@,
                    card,
                    mv,
                    g.board_model(),
                    player,
                    seq![Action::ExtraTurnGranted] + draw_log(g.deck_model(), c),
                )
        } else {
            &&& h.hist().turns@.len() == turns0.len() + 1
            &&& h.hist().turns@.subrange(0, turns0.len() as int) == turns0
            &&& h.hist().turns@.last().player == player
            &&& logged_play(log, h.hist().turns@.last().actions@, card, mv, g.board_model(), player, seq![])
            &&& if spec_game_over(po, w1, n) {
                &&& h.hist().winners@ == spec_finalize_winners(po, w1, n)
                &&& !h.hist().truncated
                &&& announces_end(h.needed(), h.hist().winners@, false)
                &&& h.turn_model() is None
                &&& h.current_model() == player
                &&& h.deck_model() == g.deck_model()
                &&& h.discard_model() == d1
                &&& h.rng_model() == g.rng_model()
            } else {
                let nxt = next_seat(player, w1, n);
                &&& h.hist().winners@ == w1
                &&& h.current_model() == nxt
                &&& if h.hist().turns@.len() >= g.max_turns_model() {
                    &&& h.hist().truncated
                    &&& announces_end(h.needed(), seq![], true)
                    &&& h.turn_model() is None
                    &&& h.deck_model() == g.deck_model()
                    &&& h.discard_model() == d1
                    &&& h.rng_model() == g.rng_model()
                } else {
                    &&& !h.hist().truncated
                    &&& exists|c: Card|
                        drawn(g.deck_model(), d1, c, h.deck_model(), h.discard_model(), g.rng_model(), h.rng_model()) && asks_move(
                            h.needed(),
                            nxt,
                            c,
                            b1,
                        ) && h.turn_model() is Some && h.turn_model()->Some_0.player == nxt
                            && h.turn_model()->Some_0.actions@ == draw_log(
                            g.deck_model(),
                            c,
                        )
                }
            }
        }
    }
}

// ─── Card bookkeeping lemmas ────────────────────────────────────────────

proof fn lemma_discard_pending(deck: Seq<Card>, discard: Seq<Card>, c: Card)
    ensures
        cards_held(deck, discard, seq![c]) == cards_held(deck, discard.push(c), Seq::empty()),
{
    discard.to_multiset_ensures();
    Seq::<Card>::empty().to_multiset_ensures();
    assert(seq![c] == Seq::<Card>::empty().push(c));
    assert(cards_held(deck, discard, seq![c]) =~= cards_held(deck, discard.push(c), Seq::empty()));
}

proof fn lemma_draw_keeps_cards(deck: Seq<Card>, discard: Seq<Card>, c: Card, deck2: Seq<Card>, discard2: Seq<Card>)
    requires
        draws_cards(deck, discard, c, deck2, discard2),
    ensures
        cards_held(deck2, discard2, seq![c]) == cards_held(deck, discard, Seq::empty()),
{
    deck2.to_multiset_ensures();
    Seq::<Card>::empty().to_multiset_ensures();
    assert(seq![c] == Seq::<Card>::empty().push(c));
    if deck.len() > 0 {
        assert(deck == deck2.push(c));
    } else {
        assert(deck.to_multiset() =~= Multiset::empty());
    }
    assert(cards_held(deck2, discard2, seq![c]) =~= cards_held(deck, discard, Seq::empty()));
}

proof fn lemma_cards_count(deck: Seq<Card>, discard: Seq<Card>, pending: Seq<Card>)
    requires
        cards_held(deck, discard, pending) == spec_standard_deck().to_multiset(),
    ensures
        deck.len() + discard.len() + pending.len() == 45,
{
    deck.to_multiset_ensures();
    discard.to_multiset_ensures();
    pending.to_multiset_ensures();
    spec_standard_deck().to_multiset_ensures();
    crate::card::lemma_standard_deck_distribution(Card::One);
}

proof fn lemma_distinct_seats_cover(w: Seq<PlayerId>, n: nat)
    requires
        n <= 255,
        w.no_duplicates(),
        forall|i: int| 0 <= i < n ==> #[trigger] w.contains(PlayerId(i as u8)),
    ensures
        w.len() >= n,
    decreases n,
{
    if n > 0 {
        let p = PlayerId((n - 1) as u8);
        assert(w.contains(p));
        let j = choose|j: int| 0 <= j < w.len() && w[j] == p;
        let w2 = w.remove(j);
        assert forall|a: int, b: int| 0 <= a < b < w2.len() implies w2[a] != w2[b] by {
            let a1 = if a < j { a } else { a + 1 };
            let b1 = if b < j { b } else { b + 1 };
            assert(w2[a] == w[a1]);
            assert(w2[b] == w[b1]);
        }
        assert forall|i: int| 0 <= i < n - 1 implies #[trigger] w2.contains(PlayerId(i as u8)) by {
            assert(w.contains(PlayerId(i as u8)));
            let k = choose|k: int| 0 <= k < w.len() && w[k] == PlayerId(i as u8);
            assert(k != j);
            if k < j {
                assert(w2[k] == w[k]);
            } else {
                assert(w2[k - 1] == w[k]);
            }
        }
        lemma_distinct_seats_cover(w2, (n - 1) as nat);
    }
}

proof fn lemma_seat_after_visits(s: int, w: Seq<PlayerId>, n: int, fuel: nat)
    requires
        0 <= s < n <= 255,
    ensures
        w.contains(PlayerId(seat_after(s, w, n, fuel) as u8)) ==> forall|k: int|
            0 <= k < fuel ==> #[trigger] w.contains(PlayerId(((s + k) % n) as u8)),
    decreases fuel,
{
    if fuel > 0 && w.contains(PlayerId(s as u8)) {
        let s1 = (s + 1) % n;
        lemma_seat_after_visits(s1, w, n, (fuel - 1) as nat);
        if w.contains(PlayerId(seat_after(s, w, n, fuel) as u8)) {
            assert forall|k: int| 0 <= k < fuel implies #[trigger] w.contains(PlayerId(((s + k) % n) as u8)) by {
                if k == 0 {
                    vstd::arithmetic::div_mod::lemma_small_mod(s as nat, n as nat);
                } else {
                    assert(w.contains(PlayerId(((s1 + (k - 1)) % n) as u8)));
                    vstd::arithmetic::div_mod::lemma_add_mod_noop(s + 1, k - 1, n);
                    vstd::arithmetic::div_mod::lemma_add_mod_noop_right(s1, k - 1, n);
                    assert((s1 + (k - 1)) % n == (s + k) % n);
                }
            }
        }
    }
}

/// When some seat has not finished, the next seat to play has not
/// finished either.
proof fn lemma_next_seat_free(cur: PlayerId, w: Seq<PlayerId>, n: nat, free: int)
    requires
        (cur.0 as int) < n <= 255,
        0 <= free < n,
        !w.contains(PlayerId(free as u8)),
    ensures
        !w.contains(next_seat(cur, w, n)),
{
    let s = (cur.0 + 1) % (n as int);
    lemma_seat_after_visits(s, w, n as int, n);
    if w.contains(next_seat(cur, w, n)) {
        let k = if free >= s {
            free - s
        } else {
            free + n - s
        };
        assert(w.contains(PlayerId(((s + k) % (n as int)) as u8)));
        vstd::arithmetic::div_mod::lemma_small_mod(free as nat, n);
        if free < s {
            vstd::arithmetic::div_mod::lemma_mod_add_multiples_vanish(free, n as int);
        }
        assert((s + k) % (n as int) == free);
    }
}

// ─── Copies with known contents ─────────────────────────────────────────

/// The same action, compared by contents.
pub open spec fn same_action(a: Action, b: Action) -> bool {
    match (a, b) {
        (Action::Draw { card: c1 }, Action::Draw { card: c2 }) => c1 == c2,
        (Action::ChooseCard { hand_index: i1, card: c1 }, Action::ChooseCard { hand_index: i2, card: c2 }) => i1
            == i2 && c1 == c2,
        (
            Action::Play { card: c1, mv: m1, bumps: b1, slides: s1 },
            Action::Play { card: c2, mv: m2, bumps: b2, slides: s2 },
        ) => c1 == c2 && m1 == m2 && b1@ == b2@ && slides_view(s1@) == slides_view(s2@),
        (Action::Reshuffle, Action::Reshuffle) => true,
        (Action::ExtraTurnGranted, Action::ExtraTurnGranted) => true,
        _ => false,
    }
}

/// The same turn record, compared by contents.
pub open spec fn same_record(a: TurnRecord, b: TurnRecord) -> bool {
    &&& a.player == b.player
    &&& a.actions@.len() == b.actions@.len()
    &&& forall|k: int| 0 <= k < a.actions@.len() ==> same_action(#[trigger] a.actions@[k], b.actions@[k])
}

fn copy_vec<T: Copy>(v: &Vec<T>) -> (r: Vec<T>)
    ensures
        r@ == v@,
{
    let mut out: Vec<T> = Vec::new();
    let mut i: usize = 0;
    while i < v.len()
        invariant
            i <= v@.len(),
            out@ == v@.subrange(0, i as int),
        decreases v@.len() - i,
    {
        out.push(v[i]);
        i = i + 1;
    }
    assert(out@ =~= v@);
    out
}

fn copy_strings(v: &Vec<String>) -> (r: Vec<String>)
    ensures
        r@.len() == v@.len(),
        forall|k: int| 0 <= k < v@.len() ==> (#[trigger] r@[k])@ == v@[k]@,
{
    let mut out: Vec<String> = Vec::new();
    let mut i: usize = 0;
    while i < v.len()
        invariant
            i <= v@.len(),
            out@.len() == i,
            forall|k: int| 0 <= k < i ==> (#[trigger] out@[k])@ == v@[k]@,
        decreases v@.len() - i,
    {
        out.push(v[i].clone());
        i = i + 1;
    }
    out
}

fn copy_slides(v: &Vec<SlideEvent>) -> (r: Vec<SlideEvent>)
    ensures
        slides_view(r@) == slides_view(v@),
{
    let mut out: Vec<SlideEvent> = Vec::new();
    let mut i: usize = 0;
    while i < v.len()
        invariant
            i <= v@.len(),
            out@.len() == i,
            forall|k: int| 0 <= k < i ==> (#[trigger] out@[k])@ == v@[k]@,
        decreases v@.len() - i,
    {
        let e = &v[i];
        out.push(SlideEvent { player: e.player, pawn: e.pawn, from: e.from, to: e.to, path: copy_vec(&e.path) });
        i = i + 1;
    }
    assert(slides_view(out@) =~= slides_view(v@));
    out
}

fn copy_action(a: &Action) -> (r: Action)
    ensures
        same_action(r, *a),
{
    match a {
        Action::Draw { card } => Action::Draw { card: *card },
        Action::ChooseCard { hand_index, card } => Action::ChooseCard { hand_index: *hand_index, card: *card },
        Action::Play { card, mv, bumps, slides } => Action::Play {
            card: *card,
            mv: *mv,
            bumps: copy_vec(bumps),
            slides: copy_slides(slides),
        },
        Action::Reshuffle => Action::Reshuffle,
        Action::ExtraTurnGranted => Action::ExtraTurnGranted,
    }
}

fn copy_record(t: &TurnRecord) -> (r: TurnRecord)
    ensures
        same_record(r, *t),
{
    let mut out: Vec<Action> = Vec::new();
    let mut i: usize = 0;
    while i < t.actions.len()
        invariant
            i <= t.actions@.len(),
            out@.len() == i,
            forall|k: int| 0 <= k < i ==> same_action(#[trigger] out@[k], t.actions@[k]),
        decreases t.actions@.len() - i,
    {
        out.push(copy_action(&t.actions[i]));
        i = i + 1;
    }
    TurnRecord { player: t.player, actions: out }
}

fn copy_needed(a: &ActionNeeded) -> (r: ActionNeeded)
    ensures
        same_needed(r, *a),
{
    match a {
        ActionNeeded::ChooseCard { player, hand, legal_card_indices } => ActionNeeded::ChooseCard {
            player: *player,
            hand: copy_vec(hand),
            legal_card_indices: copy_vec(legal_card_indices),
        },
        ActionNeeded::ChooseMove { player, card, legal_moves } => ActionNeeded::ChooseMove {
            player: *player,
            card: *card,
            legal_moves: copy_vec(legal_moves),
        },
        ActionNeeded::GameOver { winners, truncated } => ActionNeeded::GameOver {
            winners: copy_vec(winners),
            truncated: *truncated,
        },
    }
}

/// Whether `p` is one of `winners`.
fn has_player(winners: &Vec<PlayerId>, p: PlayerId) -> (r: bool)
    ensures
        r == winners@.contains(p),
{
    let mut i: usize = 0;
    while i < winners.len()
        invariant
            i <= winners@.len(),
            forall|k: int| 0 <= k < i ==> winners@[k] != p,
        decreases winners@.len() - i,
    {
        if winners[i] == p {
            return true;
        }
        i = i + 1;
    }
    false
}

/// Whether `x` is one of `v`.
fn has_index(v: &Vec<usize>, x: usize) -> (r: bool)
    ensures
        r == v@.contains(x),
{
    let mut i: usize = 0;
    while i < v.len()
        invariant
            i <= v@.len(),
            forall|k: int| 0 <= k < i ==> v@[k] != x,
        decreases v@.len() - i,
    {
        if v[i] == x {
            return true;
        }
        i = i + 1;
    }
    false
}

/// The next seat after `cur` that has not finished, cyclically.
fn next_unfinished(cur: PlayerId, winners: &Vec<PlayerId>, n: usize) -> (r: PlayerId)
    requires
        1 <= n <= 4,
        (cur.0 as int) < n,
    ensures
        r == next_seat(cur, winners@, n as nat),
        (r.0 as int) < n,
{
    let nn = n as u8;
    let start: u8 = (cur.0 + 1) % nn;
    let mut next: u8 = start;
    let mut i: usize = 0;
    while i < n && has_player(winners, PlayerId(next))
        invariant
            i <= n <= 4,
            nn == n,
            (next as int) < n,
            seat_after(next as int, winners@, n as int, (n - i) as nat) == seat_after(
                start as int,
                winners@,
                n as int,
                n as nat,
            ),
        decreases n - i,
    {
        next = (next + 1) % nn;
        i = i + 1;
    }
    PlayerId(next)
}

impl InteractiveGame {
    /// The fields no draw or hand-off touches.
    spec fn same_core(&self, other: &Self) -> bool {
        &&& other.rules == self.rules
        &&& other.board == self.board
        &&& other.hands == self.hands
        &&& other.max_turns == self.max_turns
        &&& other.last_bump_victim == self.last_bump_victim
    }

    /// Two histories with the same setup, turns and winners.
    spec fn same_record_so_far(a: GameHistory, b: GameHistory) -> bool {
        &&& a.seed == b.seed
        &&& a.num_players == b.num_players
        &&& a.strategy_names == b.strategy_names
        &&& a.rules_name == b.rules_name
        &&& a.initial_deck_order == b.initial_deck_order
        &&& a.starting_player == b.starting_player
        &&& a.turns == b.turns
        &&& a.winners == b.winners
    }

    /// Appends `a` to the open turn.
    fn log_action(&mut self, a: Action)
        requires
            old(self).current_turn is Some,
        ensures
            old(self).same_core(final(self)),
            final(self).current == old(self).current,
            final(self).deck == old(self).deck,
            final(self).discard == old(self).discard,
            final(self).history == old(self).history,
            final(self).action_needed == old(self).action_needed,
            final(self).current_turn is Some,
            final(self).current_turn->Some_0.player == old(self).current_turn->Some_0.player,
            final(self).current_turn->Some_0.actions@ == old(self).current_turn->Some_0.actions@.push(a),
            final(self).rng == old(self).rng,
    {
        let mut t = self.current_turn.take().unwrap();
        t.actions.push(a);
        self.current_turn = Some(t);
    }

    /// Draws the top card, first refilling an empty deck with the shuffled
    /// discard pile; records the reshuffle and the draw.
    fn draw_card(&mut self) -> (c: Card)
        requires
            old(self).current_turn is Some,
            old(self).deck@.len() + old(self).discard@.len() > 0,
        ensures
            old(self).same_core(final(self)),
            final(self).current == old(self).current,
            final(self).history == old(self).history,
            final(self).action_needed == old(self).action_needed,
            drawn(old(self).deck@, old(self).discard@, c, final(self).deck@, final(self).discard@, old(self).rng, final(self).rng),
            final(self).current_turn is Some,
            final(self).current_turn->Some_0.player == old(self).current_turn->Some_0.player,
            final(self).current_turn->Some_0.actions@ == old(self).current_turn->Some_0.actions@ + draw_log(
                old(self).deck@,
                c,
            ),
    {
        let ghost deck0 = self.deck@;
        let ghost discard0 = self.discard@;
        let ghost log0 = self.current_turn->Some_0.actions@;
        if self.deck.len() == 0 {
            self.deck.append(&mut self.discard);
            assert(deck0 + discard0 =~= discard0);
            assert(self.deck@ == discard0);
            shuffle_vec(&mut self.deck, &mut self.rng);
            self.log_action(Action::Reshuffle);
        }
        let ghost before_pop = self.deck@;
        let c = self.deck.pop().unwrap();
        self.log_action(Action::Draw { card: c });
        proof {
            assert(before_pop =~= self.deck@.push(c));
            if deck0.len() == 0 {
                assert(log0.push(Action::Reshuffle).push(Action::Draw { card: c }) =~= log0 + draw_log(deck0, c));
            } else {
                assert(log0.push(Action::Draw { card: c }) =~= log0 + draw_log(deck0, c));
            }
        }
        c
    }

    /// Draws for the current player and poses the resulting decision.
    fn draw_and_decide(&mut self) -> (c: Card)
        requires
            old(self).table_ok(),
            old(self).current_turn is Some,
            old(self).current_turn->Some_0.player == old(self).current,
            old(self).deck@.len() + old(self).discard@.len() > 0,
        ensures
            old(self).same_core(final(self)),
            final(self).current == old(self).current,
            final(self).history == old(self).history,
            final(self).table_ok(),
            drawn(old(self).deck@, old(self).discard@, c, final(self).deck@, final(self).discard@, old(self).rng, final(self).rng),
            asks_move(final(self).action_needed, old(self).current, c, old(self).board@),
            final(self).current_turn is Some,
            final(self).current_turn->Some_0.player == old(self).current,
            final(self).current_turn->Some_0.actions@ == old(self).current_turn->Some_0.actions@ + draw_log(
                old(self).deck@,
                c,
            ),
    {
        let c = self.draw_card();
        let current = self.current;
        if self.rules.hand_size() == 0 {
            let legal = legal_moves(&self.rules, &self.board, current, c);
            self.action_needed = ActionNeeded::ChooseMove { player: current, card: c, legal_moves: legal };
        } else {
            // Rules with a persistent hand: the card joins the hand.
            let p = current.0 as usize;
            let mut hand = copy_vec(&self.hands[p]);
            hand.push(c);
            let mut indices: Vec<usize> = Vec::new();
            let mut k: usize = 0;
            while k < hand.len()
                decreases hand@.len() - k,
            {
                indices.push(k);
                k = k + 1;
            }
            self.hands.set(p, copy_vec(&hand));
            self.action_needed = ActionNeeded::ChooseCard { player: current, hand, legal_card_indices: indices };
        }
        c
    }

    /// Opens the current player's turn and draws, unless the turn limit is
    /// reached, which ends the game as truncated.
    fn begin_turn_or_game_over(&mut self) -> (c: Option<Card>)
        requires
            old(self).table_ok(),
            old(self).current_turn is None,
            old(self).deck@.len() + old(self).discard@.len() > 0,
        ensures
            old(self).same_core(final(self)),
            final(self).current == old(self).current,
            final(self).table_ok(),
            Self::same_record_so_far(old(self).history, final(self).history),
            old(self).history.turns@.len() >= old(self).max_turns ==> {
                &&& c is None
                &&& final(self).history.truncated
                &&& announces_end(final(self).action_needed, seq![], true)
                &&& final(self).current_turn is None
                &&& final(self).deck == old(self).deck
                &&& final(self).discard == old(self).discard
                &&& final(self).rng == old(self).rng
            },
            old(self).history.turns@.len() < old(self).max_turns ==> {
                &&& c is Some
                &&& final(self).history.truncated == old(self).history.truncated
                &&& drawn(old(self).deck@, old(self).discard@, c->Some_0, final(self).deck@, final(self).discard@, old(self).rng, final(self).rng)
                &&& asks_move(final(self).action_needed, old(self).current, c->Some_0, old(self).board@)
                &&& final(self).current_turn is Some
                &&& final(self).current_turn->Some_0.player == old(self).current
                &&& final(self).current_turn->Some_0.actions@ == draw_log(old(self).deck@, c->Some_0)
            },
    {
        if self.history.turns.len() >= self.max_turns {
            self.history.truncated = true;
            self.action_needed = ActionNeeded::GameOver { winners: Vec::new(), truncated: true };
            return None;
        }
        self.current_turn = Some(TurnRecord { player: self.current, actions: Vec::new() });
        let c = self.draw_and_decide();
        proof {
            assert(Seq::<Action>::empty() + draw_log(old(self).deck@, c) =~= draw_log(old(self).deck@, c));
        }
        Some(c)
    }
}


impl InteractiveGame {
    /// Finishes the play just recorded: an extra turn for a 2 that did not
    /// win, otherwise the turn joins the history, a finisher joins the
    /// placements, and the game either ends or passes to the next
    /// unfinished seat.
    /// `h` is `g` after the play just recorded in `g` has been followed through.
    spec fn after_commit(g: &Self, h: &Self, player: PlayerId, card: Card) -> bool {
        &&& h.rules == g.rules
        &&& h.board == g.board
        &&& h.hands == g.hands
        &&& h.max_turns == g.max_turns
        &&& h.last_bump_victim == g.last_bump_victim
        &&& h.history.seed == g.history.seed
        &&& h.history.num_players == g.history.num_players
        &&& h.history.strategy_names == g.history.strategy_names
        &&& h.history.rules_name == g.history.rules_name
        &&& h.history.initial_deck_order == g.history.initial_deck_order
        &&& h.history.starting_player == g.history.starting_player
        &&& ({
                let n = g.history.num_players as nat;
                let won = spec_is_winner(g.board@, player);
                let w0 = g.history.winners@;
                let w1 = if won && !w0.contains(player) {
                    w0.push(player)
                } else {
                    w0
                };
                let po = g.rules.is_play_out();
                let turns0 = g.history.turns@;
                let log = g.current_turn->Some_0.actions@;
                if !won && card == Card::Two {
                    &&& h.current == player
                    &&& h.history.turns@ == turns0
                    &&& h.history.winners@ == w0
                    &&& !h.history.truncated
                    &&& exists|c: Card|
                        drawn(g.deck@, g.discard@, c, h.deck@, h.discard@, g.rng, h.rng)
                            && asks_move(h.action_needed, player, c, g.board@)
                            && h.current_turn is Some && h.current_turn->Some_0.player
                            == player && h.current_turn->Some_0.actions@ == log.push(
                            Action::ExtraTurnGranted,
                        ) + draw_log(g.deck@, c)
                } else {
                    &&& h.history.turns@ == turns0.push(g.current_turn->Some_0)
                    &&& if spec_game_over(po, w1, n) {
                        &&& h.history.winners@ == spec_finalize_winners(po, w1, n)
                        &&& !h.history.truncated
                        &&& announces_end(h.action_needed, h.history.winners@, false)
                        &&& h.current_turn is None
                        &&& h.current == player
                        &&& h.deck == g.deck
                        &&& h.discard == g.discard
                        &&& h.rng == g.rng
                    } else {
                        let nxt = next_seat(player, w1, n);
                        &&& h.history.winners@ == w1
                        &&& h.current == nxt
                        &&& if turns0.len() + 1 >= g.max_turns {
                            &&& h.history.truncated
                            &&& announces_end(h.action_needed, seq![], true)
                            &&& h.current_turn is None
                            &&& h.deck == g.deck
                            &&& h.discard == g.discard
                            &&& h.rng == g.rng
                        } else {
                            &&& !h.history.truncated
                            &&& exists|c: Card|
                                drawn(g.deck@, g.discard@, c, h.deck@, h.discard@, g.rng, h.rng)
                                    && asks_move(h.action_needed, nxt, c, g.board@)
                                    && h.current_turn is Some && h.current_turn->Some_0.player
                                    == nxt && h.current_turn->Some_0.actions@ == draw_log(
                                    g.deck@,
                                    c,
                                )
                        }
                    }
                }
            })
    }

    fn on_play_committed(&mut self, player: PlayerId, card: Card)
        requires
            old(self).table_ok(),
            old(self).current == player,
            old(self).current_turn is Some,
            old(self).current_turn->Some_0.player == player,
            !old(self).history.truncated,
            !spec_game_over(old(self).rules.is_play_out(), old(self).history.winners@, old(self).history.num_players as nat),
            !old(self).history.winners@.contains(player),
            cards_held(old(self).deck@, old(self).discard@, Seq::empty()) == spec_standard_deck().to_multiset(),
        ensures
            final(self).wf(),
            Self::after_commit(old(self), final(self), player, card),
    {
        proof {
            lemma_cards_count(self.deck@, self.discard@, Seq::empty());
        }
        let won_mid_turn = self.rules.is_winner(&self.board, player);
        if !won_mid_turn && self.rules.grants_extra_turn(card) {
            self.log_action(Action::ExtraTurnGranted);
            let c = self.draw_and_decide();
            proof {
                lemma_draw_keeps_cards(old(self).deck@, old(self).discard@, c, self.deck@, self.discard@);
            }
            return;
        }
        let turn = self.current_turn.take().unwrap();
        self.history.turns.push(turn);
        if won_mid_turn && !has_player(&self.history.winners, player) {
            self.history.winners.push(player);
        }
        let n = self.history.num_players;
        if self.rules.game_over(&self.history.winners, n) {
            proof {
                if self.rules.is_play_out() {
                    crate::rules::lemma_play_out_ranks_every_seat(self.history.winners@, n as nat);
                }
            }
            self.rules.finalize_winners(&mut self.history.winners, n);
            self.action_needed = ActionNeeded::GameOver { winners: copy_vec(&self.history.winners), truncated: false };
            return;
        }
        let ghost w1 = self.history.winners@;
        self.current = next_unfinished(self.current, &self.history.winners, n);
        proof {
            if self.rules.is_play_out() {
                if forall|i: int| 0 <= i < n ==> #[trigger] w1.contains(PlayerId(i as u8)) {
                    lemma_distinct_seats_cover(w1, n as nat);
                }
                let free = choose|i: int| 0 <= i < n && !#[trigger] w1.contains(PlayerId(i as u8));
                lemma_next_seat_free(player, w1, n as nat, free);
            }
        }
        let c = self.begin_turn_or_game_over();
        proof {
            match c {
                Some(c) => lemma_draw_keeps_cards(old(self).deck@, old(self).discard@, c, self.deck@, self.discard@),
                None => {},
            }
        }
    }


    /// Following through a recorded play is the transition `after_play`.
    proof fn lemma_after_play(
        g0: &Self,
        g1: &Self,
        h: &Self,
        player: PlayerId,
        card: Card,
        mv: Move,
        log: Seq<Action>,
    )
        requires
            g0.current == player,
            g0.current_turn is Some,
            g0.current_turn->Some_0.actions@ == log,
            g1.board@ == spec_apply_move(g0.board@, player, mv).0,
            g1.discard@ == g0.discard@.push(card),
            g1.deck == g0.deck,
            g1.current == player,
            g1.history == g0.history,
            g1.rules == g0.rules,
            g1.hands == g0.hands,
            g1.max_turns == g0.max_turns,
            g1.last_bump_victim == (if spec_apply_move(g0.board@, player, mv).1.len() > 0 {
                Some(spec_apply_move(g0.board@, player, mv).1.last().player)
            } else {
                g0.last_bump_victim
            }),
            g1.current_turn is Some,
            g1.current_turn->Some_0.player == g0.current_turn->Some_0.player,
            g1.current_turn->Some_0.actions@.len() == log.len() + 1,
            g1.current_turn->Some_0.actions@.subrange(0, log.len() as int) == log,
            is_play_of(g1.current_turn->Some_0.actions@[log.len() as int], card, mv, g0.board@, player),
            g0.current_turn->Some_0.player == player,
            !g0.history.truncated,
            g1.rng == g0.rng,
            Self::after_commit(g1, h, player, card),
        ensures
            Self::after_play(g0, h, card, mv),
    {
        let play = g1.current_turn->Some_0.actions@[log.len() as int];
        assert(g1.current_turn->Some_0.actions@ =~= log.push(play));
        let b1 = spec_apply_move(g0.board@, player, mv).0;
        let won = spec_is_winner(b1, player);
        if !won && card == Card::Two {
            let c = choose|c: Card|
                drawn(g1.deck@, g1.discard@, c, h.deck@, h.discard@, g1.rng, h.rng) && asks_move(h.action_needed, player, c, g1.board@)
                    && h.current_turn is Some && h.current_turn->Some_0.player == player
                    && h.current_turn->Some_0.actions@ == g1.current_turn->Some_0.actions@.push(Action::ExtraTurnGranted)
                    + draw_log(g1.deck@, c);
            let t2 = h.current_turn->Some_0.actions@;
            assert(t2.subrange(0, log.len() as int) =~= log);
            assert(t2.subrange((log.len() + 1) as int, t2.len() as int) =~= seq![Action::ExtraTurnGranted] + draw_log(
                g0.deck@,
                c,
            ));
            assert(t2[log.len() as int] == play);
            assert(logged_play(log, t2, card, mv, g0.board@, player, seq![Action::ExtraTurnGranted] + draw_log(g0.deck@, c)));
            assert(drawn(g0.deck_model(), g0.discard_model().push(card), c, h.deck_model(), h.discard_model(), g0.rng_model(), h.rng_model()));
            assert(asks_move(h.needed(), player, c, b1));
            assert(h.turn_model() is Some && h.turn_model()->Some_0.player == player);
            assert(logged_play(log, h.turn_model()->Some_0.actions@, card, mv, g0.board_model(), player, seq![Action::ExtraTurnGranted] + draw_log(g0.deck_model(), c)));
        } else {
            let last = h.history.turns@.last();
            assert(last == g1.current_turn->Some_0);
            assert(last.actions@.subrange(0, log.len() as int) =~= log);
            assert(last.actions@.subrange((log.len() + 1) as int, last.actions@.len() as int) =~= Seq::<Action>::empty());
            assert(logged_play(log, last.actions@, card, mv, g0.board@, player, seq![]));
            assert(h.history.turns@.subrange(0, g0.history.turns@.len() as int) =~= g0.history.turns@);
            let w0 = g0.hist().winners@;
            let w1 = if won && !w0.contains(player) { w0.push(player) } else { w0 };
            let n = g0.num_players_model();
            let po = g0.rules_model().is_play_out();
            if !spec_game_over(po, w1, n) {
                let nxt = next_seat(player, w1, n);
                if h.hist().turns@.len() < g0.max_turns_model() {
                    let c = choose|c: Card|
                        drawn(g1.deck@, g1.discard@, c, h.deck@, h.discard@, g1.rng, h.rng) && asks_move(h.action_needed, nxt, c, g1.board@)
                            && h.current_turn is Some && h.current_turn->Some_0.player == nxt
                            && h.current_turn->Some_0.actions@ == draw_log(g1.deck@, c);
                    assert(drawn(g0.deck_model(), g0.discard_model().push(card), c, h.deck_model(), h.discard_model(), g0.rng_model(), h.rng_model()));
                    assert(asks_move(h.needed(), nxt, c, b1));
                }
            }
        }
        assert(g0.same_setup(h));
    }

    /// Validates `action` against the pending decision and applies it.
    ///
    /// A finished game refuses every action; an action of the wrong kind, or
    /// a move outside the legal set, is refused and changes nothing.
    pub fn apply_action(&mut self, action: PlayerAction) -> (r: Result<&ActionNeeded, SorryError>)
        requires
            old(self).wf(),
        ensures
            final(self).wf(),
            r is Ok ==> *r->Ok_0 == final(self).needed(),
            old(self).same_setup(final(self)),
            old(self).needed() is GameOver ==> r == Err::<&ActionNeeded, SorryError>(SorryError::GameAlreadyOver) && same_game(
                old(self),
                final(self),
            ),
            old(self).needed() is ChooseMove ==> match action {
                PlayerAction::ChooseCard { .. } => r == Err::<&ActionNeeded, SorryError>(
                    SorryError::UnexpectedAction { expected: "PlayMove", got: "ChooseCard" },
                ) && same_game(old(self), final(self)),
                PlayerAction::PlayMove { mv } => if old(self).needed()->ChooseMove_legal_moves@.contains(mv) {
                    r is Ok && InteractiveGame::after_play(
                        old(self),
                        final(self),
                        old(self).needed()->ChooseMove_card,
                        mv,
                    )
                } else {
                    r == Err::<&ActionNeeded, SorryError>(SorryError::IllegalMove) && same_game(old(self), final(self))
                },
            },
    {
        let (player, card) = match &self.action_needed {
            ActionNeeded::GameOver { .. } => {
                return Err(SorryError::GameAlreadyOver);
            },
            ActionNeeded::ChooseCard { player, hand, legal_card_indices } => {
                match action {
                    PlayerAction::PlayMove { .. } => {
                        return Err(SorryError::UnexpectedAction { expected: "ChooseCard", got: "PlayMove" });
                    },
                    PlayerAction::ChooseCard { hand_index } => {
                        let player = *player;
                        let hand_size = hand.len();
                        if hand_index >= hand_size {
                            return Err(SorryError::InvalidHandIndex { got: hand_index, hand_size });
                        }
                        if !has_index(legal_card_indices, hand_index) {
                            return Err(SorryError::IllegalCardChoice);
                        }
                        let p = player.0 as usize;
                        let mut h = copy_vec(&self.hands[p]);
                        let chosen = h.remove(hand_index);
                        self.hands.set(p, h);
                        self.log_action(Action::ChooseCard { hand_index, card: chosen });
                        let legal = legal_moves(&self.rules, &self.board, player, chosen);
                        self.action_needed = ActionNeeded::ChooseMove { player, card: chosen, legal_moves: legal };
                        return Ok(&self.action_needed);
                    },
                }
            },
            ActionNeeded::ChooseMove { player, card, .. } => (*player, *card),
        };
        let mv = match action {
            PlayerAction::ChooseCard { .. } => {
                return Err(SorryError::UnexpectedAction { expected: "PlayMove", got: "ChooseCard" });
            },
            PlayerAction::PlayMove { mv } => mv,
        };
        let legal = legal_moves(&self.rules, &self.board, player, card);
        if !contains_move(&legal, &mv) {
            return Err(SorryError::IllegalMove);
        }
        let ghost g0 = *self;
        let ghost b0 = self.board@;
        proof {
            lemma_legal_moves_obey_rules(b0, player, card);
            let i = choose|i: int| 0 <= i < legal@.len() && legal@[i] == mv;
            assert(crate::apply::move_slots_ok(b0, player, legal@[i]));
            lemma_bumps_name_seats(b0, player, mv);
            lemma_discard_pending(self.deck@, self.discard@, card);
        }
        let (bumps, slides) = apply_move(&self.rules, &mut self.board, player, &mv);
        self.discard.push(card);
        if bumps.len() > 0 {
            self.last_bump_victim = Some(bumps[bumps.len() - 1].player);
        }
        let ghost log = self.current_turn->Some_0.actions@;
        self.log_action(Action::Play { card, mv, bumps, slides });
        let ghost g1 = *self;
        proof {
            assert(self.board@.len() == b0.len());
            assert forall|p: int| 0 <= p < self.history.num_players implies (#[trigger] self.board@[p]).len() == 4 by {
                assert(self.board@[p].len() == b0[p].len());
            }
            assert(g1.current_turn->Some_0.actions@.subrange(0, log.len() as int) =~= log);
        }
        self.on_play_committed(player, card);
        proof {
            Self::lemma_after_play(&g0, &g1, self, player, card, mv, log);
        }
        Ok(&self.action_needed)
    }
}

/// The two games hold the same position, cards, record and decision.
pub open spec fn same_game(a: &InteractiveGame, b: &InteractiveGame) -> bool {
    &&& a.same_setup(b)
    &&& b.board_model() == a.board_model()
    &&& b.deck_model() == a.deck_model()
    &&& b.discard_model() == a.discard_model()
    &&& b.hist() == a.hist()
    &&& b.current_model() == a.current_model()
    &&& b.needed() == a.needed()
    &&& b.turn_model() == a.turn_model()
    &&& b.victim_model() == a.victim_model()
}


impl InteractiveGame {
    /// `g` is the opening position of a game for `names.len()` seats under
    /// `rules` with `seed`: the shuffled deck is recorded, the first seat has
    /// drawn the top card and is asked for a move.
    pub open spec fn is_fresh(g: &Self, rules: StandardRules, names: Vec<String>, seed: u64) -> bool {
        let n = names@.len();
        let init = g.hist().initial_deck_order@;
        let first = g.hist().starting_player;
        &&& g.rules_model() == rules
        &&& g.hist().seed == seed
        &&& g.hist().num_players == n
        &&& g.hist().strategy_names == names
        &&& g.hist().rules_name@ == (if rules.is_play_out() {
            "PlayOut"@
        } else {
            "Standard"@
        })
        &&& init.len() == 45
        &&& init.to_multiset() == spec_standard_deck().to_multiset()
        &&& init == permuted(spec_standard_deck(), shuffle_order(seed, Seq::empty(), 45))
        &&& first == permuted(seat_ids(n), shuffle_order(seed, seq![RngCall::Shuffle(45)], n))[0]
        &&& g.rng_model().seed_model() == seed
        &&& g.rng_model().calls_model() == seq![RngCall::Shuffle(45), RngCall::Shuffle(n as usize)]
        &&& (first.0 as int) < n
        &&& g.hist().turns@.len() == 0
        &&& g.hist().winners@.len() == 0
        &&& !g.hist().truncated
        &&& g.current_model() == first
        &&& g.board_model() == start_board(n)
        &&& g.discard_model() == Seq::<Card>::empty()
        &&& g.deck_model() == init.drop_last()
        &&& asks_move(g.needed(), first, init.last(), start_board(n))
        &&& g.turn_model() is Some
        &&& g.turn_model()->Some_0.player == first
        &&& g.turn_model()->Some_0.actions@ == seq![Action::Draw { card: init.last() }]
        &&& g.max_turns_model() == DEFAULT_MAX_TURNS
        &&& g.victim_model() is None
        &&& g.hands_model() == Seq::new(n, |p: int| Seq::<Card>::empty())
    }

    /// A game for `num_players` seats, each labelled "Interactive".
    pub fn new(rules: StandardRules, num_players: usize, seed: u64) -> (r: Result<Self, SorryError>)
        requires
            rules.wf(),
        ensures
            num_players < 2 ==> r == Err::<Self, SorryError>(SorryError::NotEnoughPlayers { min: 2, got: num_players }),
            num_players > 4 ==> r == Err::<Self, SorryError>(SorryError::TooManyPlayers { max: 4, got: num_players }),
            2 <= num_players <= 4 ==> r is Ok && r->Ok_0.wf() && r->Ok_0.num_players_model() == num_players
                && r->Ok_0.hist().seed == seed && r->Ok_0.rules_model() == rules,
    {
        if num_players < rules.min_players() {
            return Err(SorryError::NotEnoughPlayers { min: rules.min_players(), got: num_players });
        }
        if num_players > rules.max_players() {
            return Err(SorryError::TooManyPlayers { max: rules.max_players(), got: num_players });
        }
        let mut names: Vec<String> = Vec::new();
        let mut i: usize = 0;
        while i < num_players
            invariant
                i <= num_players,
                names@.len() == i,
            decreases num_players - i,
        {
            names.push("Interactive".to_owned());
            i = i + 1;
        }
        Self::new_with_strategy_names(rules, names, seed)
    }

    /// A game whose seats carry `strategy_names`: the deck is shuffled with
    /// the generator seeded by `seed`, a seat chosen by that generator
    /// starts, and its first card is drawn.
    pub fn new_with_strategy_names(rules: StandardRules, strategy_names: Vec<String>, seed: u64) -> (r: Result<
        Self,
        SorryError,
    >)
        requires
            rules.wf(),
        ensures
            strategy_names@.len() < 2 ==> r == Err::<Self, SorryError>(
                SorryError::NotEnoughPlayers { min: 2, got: strategy_names@.len() as usize },
            ),
            strategy_names@.len() > 4 ==> r == Err::<Self, SorryError>(
                SorryError::TooManyPlayers { max: 4, got: strategy_names@.len() as usize },
            ),
            2 <= strategy_names@.len() <= 4 ==> r is Ok && r->Ok_0.wf() && Self::is_fresh(
                &r->Ok_0,
                rules,
                strategy_names,
                seed,
            ),
    {
        let num_players = strategy_names.len();
        if num_players < rules.min_players() {
            return Err(SorryError::NotEnoughPlayers { min: rules.min_players(), got: num_players });
        }
        if num_players > rules.max_players() {
            return Err(SorryError::TooManyPlayers { max: rules.max_players(), got: num_players });
        }
        let mut rng = seeded_rng(seed);
        let mut deck = rules.build_deck();
        shuffle_vec(&mut deck, &mut rng);
        let initial_deck_order = copy_vec(&deck);

        let mut start_areas: Vec<SpaceId> = Vec::new();
        let mut p: usize = 0;
        while p < num_players
            invariant
                p <= num_players <= 4,
                start_areas@.len() == p,
                forall|q: int| 0 <= q < p ==> #[trigger] start_areas@[q] == spec_start_area_id(PlayerId(q as u8)),
            decreases num_players - p,
        {
            start_areas.push(rules.start_area(PlayerId(p as u8)));
            p = p + 1;
        }
        let board = BoardState::fresh(num_players, rules.pawns_per_player(), &start_areas);

        let hand_size = rules.hand_size();
        let mut hands: Vec<Vec<Card>> = Vec::new();
        let mut p: usize = 0;
        while p < num_players
            invariant
                p <= num_players,
                hand_size == 0,
                hands@.len() == p,
                forall|q: int| 0 <= q < p ==> (#[trigger] hands@[q])@.len() == 0,
                deck@ == initial_deck_order@,
            decreases num_players - p,
        {
            let mut hand: Vec<Card> = Vec::new();
            let mut k: usize = 0;
            while k < hand_size
                invariant
                    hand_size == 0,
                    hand@.len() == 0,
                    deck@ == initial_deck_order@,
                decreases hand_size - k,
            {
                match deck.pop() {
                    Some(card) => hand.push(card),
                    None => {
                        return Err(SorryError::EmptyDeck);
                    },
                }
                k = k + 1;
            }
            hands.push(hand);
            p = p + 1;
        }

        proof {
            assert(rng.calls_model() =~= seq![RngCall::Shuffle(45)]);
        }
        let starting_player = rules.starting_player(num_players, &mut rng);
        proof {
            assert(rng.calls_model() =~= seq![RngCall::Shuffle(45), RngCall::Shuffle(num_players)]);
        }
        let rules_name = rules.name().to_owned();
        let history = GameHistory {
            seed,
            num_players,
            strategy_names,
            rules_name,
            initial_deck_order,
            starting_player,
            turns: Vec::new(),
            winners: Vec::new(),
            truncated: false,
        };
        let mut game = InteractiveGame {
            rules,
            board,
            rng,
            deck,
            discard: Vec::new(),
            hands,
            history,
            current: starting_player,
            max_turns: DEFAULT_MAX_TURNS,
            action_needed: ActionNeeded::GameOver { winners: Vec::new(), truncated: false },
            current_turn: None,
            last_bump_victim: None,
        };
        proof {
            let n = num_players as nat;
            assert forall|q: int| 0 <= q < n implies #[trigger] game.board@[q] == start_board(n)[q] by {
                assert(game.board@[q] =~= start_board(n)[q]);
            }
            assert(game.board@ =~= start_board(n));
            assert(Seq::<Card>::empty().to_multiset() =~= Multiset::empty());
            assert(cards_held(game.deck@, game.discard@, Seq::empty()) =~= game.deck@.to_multiset());
            lemma_cards_count(game.deck@, game.discard@, Seq::empty());
        }
        let c = game.begin_turn_or_game_over();
        proof {
            let c = c->Some_0;
            lemma_draw_keeps_cards(game.history.initial_deck_order@, Seq::empty(), c, game.deck@, game.discard@);
            assert(game.hands_model() =~= Seq::new(num_players as nat, |p: int| Seq::<Card>::empty()));
            assert(draw_log(game.history.initial_deck_order@, c) =~= seq![Action::Draw { card: c }]);
        }
        Ok(game)
    }

    /// Changes the number of turns after which the game is cut off.
    pub fn set_max_turns(&mut self, limit: usize)
        requires
            old(self).wf(),
        ensures
            final(self).wf(),
            final(self).max_turns_model() == limit,
            final(self).rules_model() == old(self).rules_model(),
            final(self).hands_model() == old(self).hands_model(),
            final(self).board_model() == old(self).board_model(),
            final(self).deck_model() == old(self).deck_model(),
            final(self).discard_model() == old(self).discard_model(),
            final(self).hist() == old(self).hist(),
            final(self).current_model() == old(self).current_model(),
            final(self).needed() == old(self).needed(),
            final(self).turn_model() == old(self).turn_model(),
            final(self).victim_model() == old(self).victim_model(),
    {
        self.max_turns = limit;
    }

    pub fn history(&self) -> (r: &GameHistory)
        ensures
            *r == self.hist(),
    {
        &self.history
    }

    pub fn action_needed(&self) -> (r: &ActionNeeded)
        ensures
            *r == self.needed(),
    {
        &self.action_needed
    }

    pub fn current_player(&self) -> (r: PlayerId)
        ensures
            r == self.current_model(),
    {
        self.current
    }

    pub fn is_over(&self) -> (r: bool)
        ensures
            r == (self.needed() is GameOver),
    {
        match &self.action_needed {
            ActionNeeded::GameOver { .. } => true,
            _ => false,
        }
    }

    /// `v` is what seat `player` sees of game `g`, with `drawn` as the card
    /// in hand this turn.
    pub open spec fn is_view_of(g: &Self, v: &StrategyView, player: PlayerId, drawn: Option<Card>) -> bool {
        &&& v.my_player == player
        &&& v.num_players == g.hist().num_players
        &&& v.hand@ == g.hands_model()[player.0 as int]
        &&& v.drawn_card == drawn
        &&& positions(v) == g.board_model()
        &&& v.discard@ == g.discard_model()
        &&& v.deck_remaining == g.deck_model().len()
        &&& v.current_player_turn == g.current_model()
        &&& v.last_bump_victim == g.victim_model()
    }

    /// What a strategy sees when `player` decides.
    fn build_strategy_view(&self, player: PlayerId, drawn_card: Option<Card>) -> (v: StrategyView)
        requires
            self.table_ok(),
            self.discard@.len() <= 45,
            (player.0 as int) < self.history.num_players,
        ensures
            view_ok(&v),
            Self::is_view_of(self, &v, player, drawn_card),
    {
        let v = StrategyView {
            my_player: player,
            num_players: self.history.num_players,
            hand: copy_vec(&self.hands[player.0 as usize]),
            drawn_card,
            pawn_positions: self.board.positions_copy(),
            discard: copy_vec(&self.discard),
            deck_remaining: self.deck.len(),
            current_player_turn: self.current,
            last_bump_victim: self.last_bump_victim,
        };
        proof {
            assert(board_shape_ok(self.board@));
        }
        v
    }

    /// A bot's answer to the pending decision, without applying it. Only the
    /// generator moves on.
    pub fn get_bot_action<S: Strategy>(&mut self, strategy: &S) -> (r: Result<PlayerAction, SorryError>)
        requires
            old(self).wf(),
        ensures
            final(self).wf(),
            same_game(old(self), final(self)),
            old(self).needed() is GameOver ==> r == Err::<PlayerAction, SorryError>(SorryError::GameAlreadyOver),
            old(self).needed() is ChooseMove ==> r is Ok && r->Ok_0 is PlayMove
                && old(self).needed()->ChooseMove_legal_moves@.contains(r->Ok_0->PlayMove_mv),
            old(self).needed() is ChooseMove ==> exists|v: StrategyView|
                #![trigger Self::is_view_of(old(self), &v, old(self).needed()->ChooseMove_player, Some(old(self).needed()->ChooseMove_card))]
                Self::is_view_of(
                    old(self),
                    &v,
                    old(self).needed()->ChooseMove_player,
                    Some(old(self).needed()->ChooseMove_card),
                ) && r->Ok_0->PlayMove_mv == strategy.decide(
                    v@,
                    old(self).needed()->ChooseMove_card,
                    old(self).needed()->ChooseMove_legal_moves@,
                    old(self).rng_model().seed_model(),
                    old(self).rng_model().calls_model(),
                ).0 && advanced(
                    old(self).rng_model(),
                    final(self).rng_model(),
                    strategy.decide(
                        v@,
                        old(self).needed()->ChooseMove_card,
                        old(self).needed()->ChooseMove_legal_moves@,
                        old(self).rng_model().seed_model(),
                        old(self).rng_model().calls_model(),
                    ).1,
                ),
    {
        proof {
            lemma_cards_count(self.deck@, self.discard@, pending_cards(self.action_needed));
        }
        let (player, card, legal) = match &self.action_needed {
            ActionNeeded::GameOver { .. } => {
                return Err(SorryError::GameAlreadyOver);
            },
            ActionNeeded::ChooseCard { player, hand, .. } => {
                let view = self.build_strategy_view(*player, None);
                let idx = strategy.choose_card(&view, &self.rules, &mut self.rng);
                let last = if hand.len() == 0 {
                    0
                } else {
                    hand.len() - 1
                };
                let idx = if idx < last {
                    idx
                } else {
                    last
                };
                return Ok(PlayerAction::ChooseCard { hand_index: idx });
            },
            ActionNeeded::ChooseMove { player, card, legal_moves } => (*player, *card, copy_vec(legal_moves)),
        };
        let view = self.build_strategy_view(player, Some(card));
        proof {
            lemma_legal_moves_obey_rules(self.board@, player, card);
        }
        let mv = strategy.choose_move(&view, &self.rules, card, legal.as_slice(), &mut self.rng);
        Ok(PlayerAction::PlayMove { mv })
    }

    /// Everything the game holds.
    pub fn get_full_state(&self) -> (r: InteractiveGameState)
        requires
            self.wf(),
        ensures
            r.num_players == self.hist().num_players,
            r.current_player == self.current_model(),
            r.starting_player == self.hist().starting_player,
            r.pawn_positions@.map_values(|row: Vec<SpaceId>| row@) == self.board_model(),
            r.discard@ == self.discard_model(),
            r.deck_remaining == self.deck_model().len(),
            r.hands@.map_values(|h: Vec<Card>| h@) == self.hands_model(),
            r.drawn_card == (match self.needed() {
                ActionNeeded::ChooseMove { card, .. } => Some(card),
                _ => None::<Card>,
            }),
            r.rules_name@ == self.hist().rules_name@,
            r.strategy_names@.len() == self.hist().strategy_names@.len(),
            forall|k: int|
                0 <= k < r.strategy_names@.len() ==> (#[trigger] r.strategy_names@[k])@
                    == self.hist().strategy_names@[k]@,
            same_needed(r.action_needed, self.needed()),
            r.winners@ == self.hist().winners@,
            r.truncated == self.hist().truncated,
            r.turn_count == self.hist().turns@.len(),
            r.current_turn is Some <==> self.turn_model() is Some,
            r.current_turn is Some ==> same_record(r.current_turn->Some_0, self.turn_model()->Some_0),
            r.seat_sides@ == Seq::new(self.hist().num_players as nat, |i: int| i as u8),
    {
        let mut hands: Vec<Vec<Card>> = Vec::new();
        let mut p: usize = 0;
        while p < self.hands.len()
            invariant
                p <= self.hands@.len(),
                hands@.len() == p,
                forall|q: int| 0 <= q < p ==> (#[trigger] hands@[q])@ == self.hands@[q]@,
            decreases self.hands@.len() - p,
        {
            hands.push(copy_vec(&self.hands[p]));
            p = p + 1;
        }
        assert(hands@.map_values(|h: Vec<Card>| h@) =~= self.hands_model());
        let current_turn = match &self.current_turn {
            Some(t) => Some(copy_record(t)),
            None => None,
        };
        InteractiveGameState {
            num_players: self.history.num_players,
            current_player: self.current,
            starting_player: self.history.starting_player,
            pawn_positions: self.board.positions_copy(),
            discard: copy_vec(&self.discard),
            deck_remaining: self.deck.len(),
            hands,
            drawn_card: self.current_drawn_card_if_faceup(),
            rules_name: self.history.rules_name.clone(),
            strategy_names: copy_strings(&self.history.strategy_names),
            action_needed: copy_needed(&self.action_needed),
            winners: copy_vec(&self.history.winners),
            truncated: self.history.truncated,
            turn_count: self.history.turns.len(),
            current_turn,
            seat_sides: self.rules.seat_sides(self.history.num_players),
        }
    }

    /// `viewer`'s view of the game.
    pub fn get_player_view(&self, viewer: PlayerId) -> (r: PlayerView)
        requires
            self.wf(),
        ensures
            Self::shows(self, r, Some(viewer)),
    {
        self.redacted_view(Some(viewer))
    }

    /// A spectator's view: no hand and no drawn card is shown. The `viewer`
    /// field holds `PlayerId(255)`.
    pub fn get_observer_view(&self) -> (r: PlayerView)
        requires
            self.wf(),
        ensures
            Self::shows(self, r, None),
    {
        self.redacted_view(None)
    }

    /// `v` is what `viewer` (a seat, or `None` for a spectator) sees of `g`:
    /// the public state in full, the viewer's own hand only, and the drawn
    /// card only when the viewer is the player holding it.
    pub open spec fn shows(g: &Self, v: PlayerView, viewer: Option<PlayerId>) -> bool {
        let n = g.hist().num_players;
        &&& v.viewer == (match viewer {
            Some(p) => p,
            None => PlayerId(255),
        })
        &&& v.num_players == n
        &&& v.current_player == g.current_model()
        &&& v.starting_player == g.hist().starting_player
        &&& v.pawn_positions@.map_values(|row: Vec<SpaceId>| row@) == g.board_model()
        &&& v.discard@ == g.discard_model()
        &&& v.deck_remaining == g.deck_model().len()
        &&& v.hands@.len() == n
        &&& forall|p: int|
            0 <= p < n ==> (#[trigger] v.hands@[p] is Some <==> viewer == Some(PlayerId(p as u8)))
                && (v.hands@[p] is Some ==> v.hands@[p]->Some_0@ == g.hands_model()[p])
        &&& v.drawn_card == (match g.needed() {
            ActionNeeded::ChooseMove { player, card, .. } => if viewer == Some(player) {
                Some(card)
            } else {
                None::<Card>
            },
            _ => None::<Card>,
        })
        &&& v.rules_name@ == g.hist().rules_name@
        &&& v.strategy_names@.len() == g.hist().strategy_names@.len()
        &&& forall|k: int|
            0 <= k < v.strategy_names@.len() ==> (#[trigger] v.strategy_names@[k])@
                == g.hist().strategy_names@[k]@
        &&& same_needed(v.action_needed, g.needed())
        &&& v.winners@ == g.hist().winners@
        &&& v.truncated == g.hist().truncated
        &&& v.turn_count == g.hist().turns@.len()
        &&& v.seat_sides@ == Seq::new(n as nat, |i: int| i as u8)
    }

    fn redacted_view(&self, viewer: Option<PlayerId>) -> (r: PlayerView)
        requires
            self.wf(),
        ensures
            Self::shows(self, r, viewer),
    {
        let drawn_card = match (&self.action_needed, viewer) {
            (ActionNeeded::ChooseMove { player, card, .. }, Some(v)) => if *player == v {
                self.current_drawn_card_if_faceup()
            } else {
                None
            },
            _ => None,
        };
        let mut hands: Vec<Option<Vec<Card>>> = Vec::new();
        let mut p: usize = 0;
        while p < self.hands.len()
            invariant
                self.table_ok(),
                p <= self.hands@.len(),
                hands@.len() == p,
                forall|q: int|
                    0 <= q < p ==> (#[trigger] hands@[q] is Some <==> viewer == Some(PlayerId(q as u8))) && (
                    hands@[q] is Some ==> hands@[q]->Some_0@ == self.hands@[q]@),
            decreases self.hands@.len() - p,
        {
            let mine = match viewer {
                Some(v) => v.0 as usize == p,
                None => false,
            };
            if mine {
                hands.push(Some(copy_vec(&self.hands[p])));
            } else {
                hands.push(None);
            }
            p = p + 1;
        }
        let action_needed = match &self.action_needed {
            ActionNeeded::ChooseCard { player, hand: _, legal_card_indices } => {
                if viewer == Some(*player) {
                    copy_needed(&self.action_needed)
                } else {
                    ActionNeeded::ChooseCard {
                        player: *player,
                        hand: Vec::new(),
                        legal_card_indices: copy_vec(legal_card_indices),
                    }
                }
            },
            other => copy_needed(other),
        };
        PlayerView {
            viewer: match viewer {
                Some(v) => v,
                None => PlayerId(255),
            },
            num_players: self.history.num_players,
            current_player: self.current,
            starting_player: self.history.starting_player,
            pawn_positions: self.board.positions_copy(),
            discard: copy_vec(&self.discard),
            deck_remaining: self.deck.len(),
            hands,
            drawn_card,
            rules_name: self.history.rules_name.clone(),
            strategy_names: copy_strings(&self.history.strategy_names),
            action_needed,
            winners: copy_vec(&self.history.winners),
            truncated: self.history.truncated,
            turn_count: self.history.turns.len(),
            seat_sides: self.rules.seat_sides(self.history.num_players),
        }
    }

    /// The face-up card awaiting a move, for rules without a hand.
    fn current_drawn_card_if_faceup(&self) -> (r: Option<Card>)
        ensures
            r == (match self.action_needed {
                ActionNeeded::ChooseMove { card, .. } => Some(card),
                _ => None::<Card>,
            }),
    {
        if self.rules.hand_size() != 0 {
            return None;
        }
        match &self.action_needed {
            ActionNeeded::ChooseMove { card, .. } => Some(*card),
            _ => None,
        }
    }
}


impl InteractiveGame {
    /// The game's record, taken out of the game.
    pub fn into_history(self) -> (r: GameHistory)
        ensures
            r == self.hist(),
    {
        self.history
    }
}

/// No card is ever lost or duplicated: at every step of a game the draw
/// pile, the discard pile and the card awaiting a move hold exactly one
/// standard deck, 45 cards in all.
pub proof fn lemma_cards_conserved(g: &InteractiveGame)
    requires
        g.wf(),
    ensures
        cards_held(g.deck_model(), g.discard_model(), pending_cards(g.needed())) == spec_standard_deck().to_multiset(),
        g.deck_model().len() + g.discard_model().len() + pending_cards(g.needed()).len() == 45,
{
    lemma_cards_count(g.deck@, g.discard@, pending_cards(g.action_needed));
}

/// A game that ended by play (not by the turn limit) has a result: under
/// the standard rules exactly one winner, whose pawns are all Home; under
/// Play Out a ranking that names every seat exactly once.
pub proof fn lemma_finished_game_result(g: &InteractiveGame)
    requires
        g.wf(),
        g.needed() is GameOver,
    ensures
        g.needed()->GameOver_truncated == g.hist().truncated,
        !g.hist().truncated ==> g.needed()->GameOver_winners@ == g.hist().winners@,
        !g.hist().truncated && !g.rules_model().is_play_out() ==> g.hist().winners@.len() == 1 && spec_is_winner(
            g.board_model(),
            g.hist().winners@[0],
        ),
        !g.hist().truncated && g.rules_model().is_play_out() ==> {
            &&& g.hist().winners@.no_duplicates()
            &&& forall|k: int|
                0 <= k < g.hist().winners@.len() ==> (#[trigger] g.hist().winners@[k]).0 < g.hist().num_players
            &&& forall|i: int| 0 <= i < g.hist().num_players ==> #[trigger] g.hist().winners@.contains(PlayerId(i as u8))
        },
{
}

/// While a game runs, the seat to move is asked about its own drawn card
/// and offered exactly the legal moves for it.
pub proof fn lemma_running_game_offers_legal_moves(g: &InteractiveGame)
    requires
        g.wf(),
        !(g.needed() is GameOver),
    ensures
        asks_move(g.needed(), g.current_model(), g.needed()->ChooseMove_card, g.board_model()),
        spec_legal_moves(g.board_model(), g.current_model(), g.needed()->ChooseMove_card).len() >= 1,
        !g.hist().truncated,
        (g.current_model().0 as int) < g.num_players_model(),
{
    lemma_legal_moves_obey_rules(g.board@, g.current, g.action_needed->ChooseMove_card);
}

/// The placement list never names a seat twice, and only names seats at
/// the table; every recorded turn was taken by a seat at the table.
pub proof fn lemma_winners_are_distinct_seats(g: &InteractiveGame)
    requires
        g.wf(),
    ensures
        g.hist().winners@.no_duplicates(),
        forall|k: int| 0 <= k < g.hist().winners@.len() ==> (#[trigger] g.hist().winners@[k]).0 < g.hist().num_players,
        forall|k: int| 0 <= k < g.hist().turns@.len() ==> (#[trigger] g.hist().turns@[k]).player.0 < g.hist().num_players,
{
}

/// Finished seats take no more turns: while the game runs, the seat to
/// move is never one that has already finished.
pub proof fn lemma_finished_seats_do_not_play(g: &InteractiveGame)
    requires
        g.wf(),
        !(g.needed() is GameOver),
    ensures
        !g.hist().winners@.contains(g.current_model()),
{
}

/// The same seed deals the same game: two fresh games for the same rules,
/// seats and seed open with the same deck order, the same first seat,
/// board, piles and drawn card, and ask the same decision.
pub proof fn lemma_same_seed_same_opening(
    g1: &InteractiveGame,
    g2: &InteractiveGame,
    rules: StandardRules,
    names: Vec<String>,
    seed: u64,
)
    requires
        InteractiveGame::is_fresh(g1, rules, names, seed),
        InteractiveGame::is_fresh(g2, rules, names, seed),
    ensures
        g1.hist().initial_deck_order@ == g2.hist().initial_deck_order@,
        g1.hist().starting_player == g2.hist().starting_player,
        g1.current_model() == g2.current_model(),
        g1.board_model() == g2.board_model(),
        g1.deck_model() == g2.deck_model(),
        g1.discard_model() == g2.discard_model(),
        g1.turn_model()->Some_0.actions@ == g2.turn_model()->Some_0.actions@,
        g1.needed() is ChooseMove && g2.needed() is ChooseMove,
        g1.needed()->ChooseMove_player == g2.needed()->ChooseMove_player,
        g1.needed()->ChooseMove_card == g2.needed()->ChooseMove_card,
        g1.needed()->ChooseMove_legal_moves@ == g2.needed()->ChooseMove_legal_moves@,
{
}

} // verus!
