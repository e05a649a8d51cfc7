//! What a strategy sees, and the contract every strategy keeps.

use crate::apply::move_slots_ok;
use crate::board::{PlayerId, SpaceId};
use crate::card::Card;
use crate::moves::{Move, moves_board_ok};
use crate::rules::StandardRules;
use crate::rng::{GameRng, RngCall, advanced};
use vstd::prelude::*;

verus! {

/// Public information handed to a strategy when it must decide. Sorry! has
/// no hidden state, so this is a plain snapshot.
#[derive(Debug, Clone)]
pub struct StrategyView {
    pub my_player: PlayerId,
    pub num_players: usize,
    /// Persistent hand; empty when the rules use no hand.
    pub hand: Vec<Card>,
    /// The card just drawn this turn, for rules without a hand.
    pub drawn_card: Option<Card>,
    /// `pawn_positions[player][pawn]`.
    pub pawn_positions: Vec<Vec<SpaceId>>,
    /// The discard pile, oldest first.
    pub discard: Vec<Card>,
    pub deck_remaining: usize,
    pub current_player_turn: PlayerId,
    /// The player whose pawn was most recently sent back to Start, if any.
    pub last_bump_victim: Option<PlayerId>,
}

/// What a view holds, by value: the mathematical content of a
/// `StrategyView`.
pub struct ViewModel {
    pub my_player: PlayerId,
    pub num_players: usize,
    pub hand: Seq<Card>,
    pub drawn_card: Option<Card>,
    pub positions: Seq<Seq<SpaceId>>,
    pub discard: Seq<Card>,
    pub deck_remaining: usize,
    pub current_player_turn: PlayerId,
    pub last_bump_victim: Option<PlayerId>,
}

impl View for StrategyView {
    type V = ViewModel;

    open spec fn view(&self) -> ViewModel {
        ViewModel {
            my_player: self.my_player,
            num_players: self.num_players,
            hand: self.hand@,
            drawn_card: self.drawn_card,
            positions: positions(self),
            discard: self.discard@,
            deck_remaining: self.deck_remaining,
            current_player_turn: self.current_player_turn,
            last_bump_victim: self.last_bump_victim,
        }
    }
}

#[derive(Debug, Clone, Copy, PartialEq, Eq, Structural)]
pub enum Complexity {
    Trivial,
    Low,
    Medium,
    High,
}

#[derive(Debug, Clone)]
pub struct StrategyDescription {
    pub name: String,
    pub summary: String,
    pub complexity: Complexity,
}

/// The positions of a view as a matrix of spaces.
pub open spec fn positions(v: &StrategyView) -> Seq<Seq<SpaceId>> {
    v.pawn_positions@.map_values(|row: Vec<SpaceId>| row@)
}

/// The view describes a board the rules can play on, seen by a seated player.
pub open spec fn view_ok(v: &StrategyView) -> bool {
    &&& moves_board_ok(positions(v), v.my_player)
    &&& v.num_players <= positions(v).len()
    &&& v.last_bump_victim matches Some(p) ==> (p.0 as int) < positions(v).len()
    &&& v.discard@.len() <= u32::MAX
}

/// Every move of `legal` names pawn slots that exist in the view.
pub open spec fn legal_ok(v: &StrategyView, legal: Seq<Move>) -> bool {
    forall|i: int| 0 <= i < legal.len() ==> move_slots_ok(positions(v), v.my_player, #[trigger] legal[i])
}

/// How a player picks a card and a move.
pub trait Strategy {
    /// The strategy's display name.
    spec fn name_text(&self) -> Seq<char>;

    fn name(&self) -> (r: &'static str)
        ensures
            r@ == self.name_text(),
    ;

    fn describe(&self) -> StrategyDescription;

    /// Index into `view.hand` of the card to play (hand-holding rules only).
    fn choose_card(&self, view: &StrategyView, rules: &StandardRules, rng: &mut GameRng) -> (r: usize)
        ensures
            view.hand@.len() > 0 ==> r < view.hand@.len(),
    ;

    /// The move this strategy picks among `legal` for `card`, seen from a
    /// view holding `v`, on a generator seeded with `seed` and used as
    /// `calls`; and the uses of the generator that picking makes.
    spec fn decide(&self, v: ViewModel, card: Card, legal: Seq<Move>, seed: u64, calls: Seq<RngCall>) -> (Move, Seq<RngCall>);

    /// One of `legal`, or Pass when `legal` is empty, picked by the
    /// strategy's own rule.
    fn choose_move(&self, view: &StrategyView, rules: &StandardRules, card: Card, legal: &[Move], rng: &mut GameRng) -> (r: Move)
        requires
            view_ok(view),
            legal_ok(view, legal@),
        ensures
            legal@.len() > 0 ==> legal@.contains(r),
            legal@.len() == 0 ==> r == Move::Pass,
            r == self.decide(view@, card, legal@, old(rng).seed_model(), old(rng).calls_model()).0,
            advanced(
                *old(rng),
                *final(rng),
                self.decide(view@, card, legal@, old(rng).seed_model(), old(rng).calls_model()).1,
            ),
    ;
}

} // verus!
