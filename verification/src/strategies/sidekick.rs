//! "Sidekick": piles on whichever opponent most recently had a pawn sent
//! back to Start, with Survivor's priority; Greedy when there is no such
//! victim or the victim has nothing outside Start.

use crate::board::PlayerId;
use crate::card::Card;
use crate::moves::Move;
use crate::rules::{StandardRules, spec_start_area_id};
use crate::strategy::{ViewModel, Complexity, Strategy, StrategyDescription, StrategyView, legal_ok, positions, view_ok};
use crate::strategies::survivor::{attack_decide, attack_ok, attack_pick};
use crate::rng::RngCall;
use crate::strategies::util::{greedy_decide, greedy_or_pass, greedy_pick};
use crate::rng::GameRng;
use vstd::prelude::*;

verus! {

#[derive(Debug, Default, Clone, Copy)]
pub struct SidekickStrategy;

/// The recent victim worth attacking: another player with a pawn outside
/// its Start area.
pub open spec fn live_victim(v: ViewModel) -> Option<PlayerId> {
    match v.last_bump_victim {
        Some(t) => if t != v.my_player && exists|i: int|
            0 <= i < v.positions[t.0 as int].len() && #[trigger] v.positions[t.0 as int][i] != spec_start_area_id(t) {
            Some(t)
        } else {
            None
        },
        None => None,
    }
}

pub open spec fn sidekick_ok(v: ViewModel, legal: Seq<Move>, r: Move) -> bool {
    match live_victim(v) {
        Some(t) => attack_ok(v, legal, t, r),
        None => greedy_or_pass(v, legal, r),
    }
}

impl Strategy for SidekickStrategy {
    open spec fn name_text(&self) -> Seq<char> {
        "Sidekick"@
    }

    fn name(&self) -> (r: &'static str)
        ensures
            r@ == "Sidekick"@,
    {
        "Sidekick"
    }

    fn describe(&self) -> (r: StrategyDescription)
        ensures
            r.name@ == "Sidekick"@,
            r.summary@ == "Attacks the most recently-bumped opponent; Greedy otherwise."@,
            r.complexity == Complexity::Medium,
    {
        StrategyDescription {
            name: "Sidekick".to_owned(),
            summary: "Attacks the most recently-bumped opponent; Greedy otherwise.".to_owned(),
            complexity: Complexity::Medium,
        }
    }

    fn choose_card(&self, view: &StrategyView, rules: &StandardRules, rng: &mut GameRng) -> (r: usize)
        ensures
            r == 0,
    {
        0
    }

    open spec fn decide(&self, v: ViewModel, card: Card, legal: Seq<Move>, seed: u64, calls: Seq<RngCall>) -> (Move, Seq<RngCall>) {
        match live_victim(v) {
            Some(t) => attack_decide(v, legal, t, seed, calls),
            None => greedy_decide(v, legal, seed, calls),
        }
    }

    fn choose_move(&self, view: &StrategyView, rules: &StandardRules, card: Card, legal: &[Move], rng: &mut GameRng) -> (r: Move)
        ensures
            sidekick_ok(view@, legal@, r),
    {
        let me = view.my_player;
        let victim = match view.last_bump_victim {
            Some(t) => {
                if t != me {
                    t
                } else {
                    return greedy_pick(view, rules, legal, rng);
                }
            },
            None => return greedy_pick(view, rules, legal, rng),
        };
        let victim_start = rules.start_area(victim);
        let row = view.pawn_positions[victim.0 as usize].as_slice();
        assert(row@ == positions(view)[victim.0 as int]);
        let mut any_outside = false;
        let mut i: usize = 0;
        while i < row.len()
            invariant
                i <= row@.len(),
                any_outside == exists|k: int| 0 <= k < i && #[trigger] row@[k] != victim_start,
            decreases row@.len() - i,
        {
            if row[i] != victim_start {
                any_outside = true;
            }
            i = i + 1;
        }
        if !any_outside {
            return greedy_pick(view, rules, legal, rng);
        }
        attack_pick(view, rules, legal, victim, rng)
    }
}

} // verus!
