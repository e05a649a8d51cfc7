//! "Greedy": always minimizes total distance-to-home, preferring moves into
//! the safety zone.

use crate::card::Card;
use crate::moves::Move;
use crate::rules::StandardRules;
use crate::strategy::{ViewModel, Complexity, Strategy, StrategyDescription, StrategyView, legal_ok, view_ok};
use crate::strategies::util::{
    greedy_choice_ok, greedy_decide, greedy_pick, greedy_score, lands_in_safety, lemma_greedy_prefers_safety,
};
use crate::rng::RngCall;
use crate::rng::GameRng;
use vstd::prelude::*;

verus! {

#[derive(Debug, Default, Clone, Copy)]
pub struct GreedyStrategy;

impl Strategy for GreedyStrategy {
    open spec fn name_text(&self) -> Seq<char> {
        "Greedy"@
    }

    fn name(&self) -> (r: &'static str)
        ensures
            r@ == "Greedy"@,
    {
        "Greedy"
    }

    fn describe(&self) -> (r: StrategyDescription)
        ensures
            r.name@ == "Greedy"@,
            r.summary@ == "Always minimizes total distance-to-home, preferring moves into the safety zone."@,
            r.complexity == Complexity::Low,
    {
        StrategyDescription {
            name: "Greedy".to_owned(),
            summary: "Always minimizes total distance-to-home, preferring moves into the safety zone.".to_owned(),
            complexity: Complexity::Low,
        }
    }

    fn choose_card(&self, view: &StrategyView, rules: &StandardRules, rng: &mut GameRng) -> (r: usize)
        ensures
            r == 0,
    {
        0
    }

    open spec fn decide(&self, v: ViewModel, card: Card, legal: Seq<Move>, seed: u64, calls: Seq<RngCall>) -> (Move, Seq<RngCall>) {
        greedy_decide(v, legal, seed, calls)
    }

    fn choose_move(&self, view: &StrategyView, rules: &StandardRules, card: Card, legal: &[Move], rng: &mut GameRng) -> (r: Move)
        ensures
            legal@.len() > 0 ==> greedy_choice_ok(view@, legal@, r),
            view.my_player.0 < 4 && (exists|i: int|
                0 <= i < legal@.len() && lands_in_safety(#[trigger] legal@[i], view.my_player) && forall|j: int|
                    0 <= j < legal@.len() ==> greedy_score(view@, legal@[i]) <= greedy_score(view@, #[trigger] legal@[j]))
                ==> lands_in_safety(r, view.my_player),
    {
        let r = greedy_pick(view, rules, legal, rng);
        proof {
            if view.my_player.0 < 4 && exists|i: int|
                0 <= i < legal@.len() && lands_in_safety(#[trigger] legal@[i], view.my_player) && forall|j: int|
                    0 <= j < legal@.len() ==> greedy_score(view@, legal@[i]) <= greedy_score(view@, #[trigger] legal@[j]) {
                let i = choose|i: int|
                    0 <= i < legal@.len() && lands_in_safety(#[trigger] legal@[i], view.my_player) && forall|j: int|
                        0 <= j < legal@.len() ==> greedy_score(view@, legal@[i]) <= greedy_score(view@, #[trigger] legal@[j]);
                lemma_greedy_prefers_safety(view@, legal@, r, i);
            }
        }
        r
    }
}

} // verus!
