//! The full record of a game: setup, every turn's actions, and the result.

use crate::apply::{BumpEvent, SlideEvent};
use crate::board::PlayerId;
use crate::card::Card;
use crate::moves::Move;
use vstd::prelude::*;

verus! {

/// Full deterministic record of a game. `initial_deck_order`, `seed` and
/// `turns` are sufficient to reconstruct every intermediate state.
#[derive(Debug, Clone, PartialEq, Eq)]
pub struct GameHistory {
    pub seed: u64,
    pub num_players: usize,
    pub strategy_names: Vec<String>,
    pub rules_name: String,
    pub initial_deck_order: Vec<Card>,
    pub starting_player: PlayerId,
    pub turns: Vec<TurnRecord>,
    pub winners: Vec<PlayerId>,
    pub truncated: bool,
}

/// One seat's turn, extra turns from a 2 included.
#[derive(Debug, Clone, PartialEq, Eq)]
pub struct TurnRecord {
    pub player: PlayerId,
    pub actions: Vec<Action>,
}

#[derive(Debug, Clone, PartialEq, Eq)]
pub enum Action {
    Draw { card: Card },
    /// Only for rules with a persistent hand.
    ChooseCard { hand_index: usize, card: Card },
    Play { card: Card, mv: Move, bumps: Vec<BumpEvent>, slides: Vec<SlideEvent> },
    /// The deck ran out and was reshuffled from the discard pile.
    Reshuffle,
    /// The card granted an extra turn (only the 2 in standard rules).
    ExtraTurnGranted,
}

} // verus!
