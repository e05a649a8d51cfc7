//! "Random": a uniformly random legal move.

use crate::card::Card;
use crate::moves::Move;
use crate::rng::{RngCall, choose_item, chosen_index, next_u32, next_word};
use crate::rules::StandardRules;
use crate::strategy::{ViewModel, Complexity, Strategy, StrategyDescription, StrategyView, legal_ok, view_ok};
use crate::rng::GameRng;
use vstd::prelude::*;

verus! {

#[derive(Debug, Default, Clone, Copy)]
pub struct RandomStrategy;

impl Strategy for RandomStrategy {
    open spec fn name_text(&self) -> Seq<char> {
        "Random"@
    }

    fn name(&self) -> (r: &'static str)
        ensures
            r@ == "Random"@,
    {
        "Random"
    }

    fn describe(&self) -> (r: StrategyDescription)
        ensures
            r.name@ == "Random"@,
            r.summary@ == "Picks a uniformly random legal move."@,
            r.complexity == Complexity::Trivial,
    {
        StrategyDescription {
            name: "Random".to_owned(),
            summary: "Picks a uniformly random legal move.".to_owned(),
            complexity: Complexity::Trivial,
        }
    }

    fn choose_card(&self, view: &StrategyView, rules: &StandardRules, rng: &mut GameRng) -> (r: usize)
        ensures
            view.hand@.len() == 0 ==> r == 0,
            view.hand@.len() > 0 ==> r == next_word(old(rng).seed_model(), old(rng).calls_model()) as int
                % view.hand@.len() as int,
    {
        if view.hand.len() == 0 {
            0
        } else {
            (next_u32(rng) as usize) % view.hand.len()
        }
    }

    open spec fn decide(&self, v: ViewModel, card: Card, legal: Seq<Move>, seed: u64, calls: Seq<RngCall>) -> (Move, Seq<RngCall>) {
        let drawn = seq![RngCall::Choose(legal.len() as usize)];
        if legal.len() > 0 {
            (legal[chosen_index(seed, calls, legal.len())], drawn)
        } else {
            (Move::Pass, drawn)
        }
    }

    fn choose_move(&self, view: &StrategyView, rules: &StandardRules, card: Card, legal: &[Move], rng: &mut GameRng) -> (r: Move) {
        let ghost before = *rng;
        let r = match choose_item(legal, rng) {
            Some(m) => *m,
            None => Move::Pass,
        };
        assert(rng.calls_model() =~= before.calls_model() + seq![RngCall::Choose(legal@.len() as usize)]);
        r
    }
}

} // verus!
