//! "Teleporter": always takes an 11-swap when one is legal, picking the
//! swap that puts its own pawn farthest past its start exit; Greedy
//! otherwise.

use crate::board::{PlayerId, SpaceId};
use crate::card::Card;
use crate::moves::Move;
use crate::rules::{StandardRules, spec_forward, spec_start_exit};
use crate::strategy::{ViewModel, Complexity, Strategy, StrategyDescription, StrategyView, legal_ok, positions, view_ok};
use crate::strategies::util::{
    greedy_choice_ok, greedy_decide, greedy_pick, lemma_filter_members, lemma_filter_nonempty, lemma_filter_same,
    lemma_filter_take, pick, pick_from,
};
use crate::rng::RngCall;
use crate::rng::GameRng;
use vstd::prelude::*;

verus! {

#[derive(Debug, Default, Clone, Copy)]
pub struct TeleporterStrategy;

/// Forward steps from `cur` (already `steps - 1` steps out) to `to`, within
/// 70 steps; `i64::MIN` when `to` is not reached.
pub open spec fn fwd_steps_to(cur: SpaceId, to: SpaceId, player: PlayerId, steps: int) -> int
    decreases 71 - steps,
{
    if steps > 70 || steps < 1 {
        i64::MIN as int
    } else {
        match spec_forward(cur, player) {
            Some(n) => if n == to {
                steps
            } else {
                fwd_steps_to(n, to, player, steps + 1)
            },
            None => i64::MIN as int,
        }
    }
}

pub open spec fn spec_forward_distance(from: SpaceId, to: SpaceId, player: PlayerId) -> int {
    if from == to {
        0
    } else {
        fwd_steps_to(from, to, player, 1)
    }
}

/// How far past `me`'s start exit the swap puts `me`'s pawn.
pub open spec fn swap_score(v: ViewModel, m: Move) -> int {
    let me = v.my_player;
    match m {
        Move::SwapEleven { their_player, their_pawn, .. } => spec_forward_distance(
            spec_start_exit(me),
            v.positions[their_player.0 as int][their_pawn.0 as int],
            me,
        ),
        _ => 0,
    }
}

fn forward_steps(rules: &StandardRules, from: SpaceId, to: SpaceId, player: PlayerId) -> (r: i64)
    ensures
        r as int == spec_forward_distance(from, to, player),
{
    if from == to {
        return 0;
    }
    let mut cur = from;
    let mut steps: i64 = 1;
    while steps <= 70
        invariant
            1 <= steps <= 71,
            spec_forward_distance(from, to, player) == fwd_steps_to(cur, to, player, steps as int),
        decreases 71 - steps,
    {
        match rules.forward_neighbor(cur, player) {
            Some(next) => {
                if next == to {
                    return steps;
                }
                cur = next;
            },
            None => return i64::MIN,
        }
        steps = steps + 1;
    }
    i64::MIN
}

/// With a swap available, one of the swaps of greatest score; otherwise
/// Greedy's choice.
pub open spec fn teleporter_ok(v: ViewModel, legal: Seq<Move>, r: Move) -> bool {
    if exists|i: int| 0 <= i < legal.len() && #[trigger] legal[i] is SwapEleven {
        &&& legal.contains(r)
        &&& r is SwapEleven
        &&& forall|i: int| 0 <= i < legal.len() && #[trigger] legal[i] is SwapEleven ==> swap_score(v, legal[i]) <= swap_score(v, r)
    } else {
        legal.len() > 0 ==> greedy_choice_ok(v, legal, r)
    }
}

/// A swap of `legal` whose score no other swap of `legal` beats.
pub open spec fn top_swap(v: ViewModel, legal: Seq<Move>, m: Move) -> bool {
    &&& m is SwapEleven
    &&& forall|i: int| 0 <= i < legal.len() && #[trigger] legal[i] is SwapEleven ==> swap_score(v, legal[i]) <= swap_score(v, m)
}

/// The best swaps of `legal`, in order.
pub open spec fn top_swaps(v: ViewModel, legal: Seq<Move>) -> Seq<Move> {
    legal.filter(|m: Move| top_swap(v, legal, m))
}

impl Strategy for TeleporterStrategy {
    open spec fn name_text(&self) -> Seq<char> {
        "Teleporter"@
    }

    fn name(&self) -> (r: &'static str)
        ensures
            r@ == "Teleporter"@,
    {
        "Teleporter"
    }

    fn describe(&self) -> (r: StrategyDescription)
        ensures
            r.name@ == "Teleporter"@,
            r.summary@ == "Always swaps on 11; picks the swap that best advances own pawn; Greedy otherwise."@,
            r.complexity == Complexity::Low,
    {
        StrategyDescription {
            name: "Teleporter".to_owned(),
            summary: "Always swaps on 11; picks the swap that best advances own pawn; Greedy otherwise.".to_owned(),
            complexity: Complexity::Low,
        }
    }

    fn choose_card(&self, view: &StrategyView, rules: &StandardRules, rng: &mut GameRng) -> (r: usize)
        ensures
            r == 0,
    {
        0
    }

    open spec fn decide(&self, v: ViewModel, card: Card, legal: Seq<Move>, seed: u64, calls: Seq<RngCall>) -> (Move, Seq<RngCall>) {
        if exists|i: int| 0 <= i < legal.len() && #[trigger] legal[i] is SwapEleven {
            pick_from(top_swaps(v, legal), seed, calls)
        } else {
            greedy_decide(v, legal, seed, calls)
        }
    }

    fn choose_move(&self, view: &StrategyView, rules: &StandardRules, card: Card, legal: &[Move], rng: &mut GameRng) -> (r: Move)
        ensures
            teleporter_ok(view@, legal@, r),
    {
        let me = view.my_player;
        let start_exit = rules.start_exit(me);
        let mut any = false;
        let mut best: i64 = i64::MIN;
        let mut i: usize = 0;
        while i < legal.len()
            invariant
                view_ok(view),
                legal_ok(view, legal@),
                me == view.my_player,
                start_exit == spec_start_exit(me),
                i <= legal@.len(),
                any == exists|k: int| 0 <= k < i && #[trigger] legal@[k] is SwapEleven,
                forall|k: int| 0 <= k < i && #[trigger] legal@[k] is SwapEleven ==> swap_score(view@, legal@[k]) <= best,
                any ==> exists|k: int|
                    0 <= k < i && #[trigger] legal@[k] is SwapEleven && swap_score(view@, legal@[k]) == best,
            decreases legal@.len() - i,
        {
            match legal[i] {
                Move::SwapEleven { their_player, their_pawn, .. } => {
                    let their_pos = view.pawn_positions[their_player.0 as usize][their_pawn.0 as usize];
                    let d = forward_steps(rules, start_exit, their_pos, me);
                    if !any || d > best {
                        best = d;
                    }
                    any = true;
                },
                _ => {},
            }
            i = i + 1;
        }
        if !any {
            return greedy_pick(view, rules, legal, rng);
        }
        let ghost pred = |m: Move| m is SwapEleven && swap_score(view@, m) == best as int;
        let mut cands: Vec<Move> = Vec::new();
        let mut i: usize = 0;
        while i < legal.len()
            invariant
                view_ok(view),
                legal_ok(view, legal@),
                me == view.my_player,
                start_exit == spec_start_exit(me),
                i <= legal@.len(),
                pred == (|m: Move| m is SwapEleven && swap_score(view@, m) == best as int),
                cands@ == legal@.take(i as int).filter(pred),
            decreases legal@.len() - i,
        {
            let m = legal[i];
            proof {
                lemma_filter_take(legal@, pred, i as int);
            }
            match m {
                Move::SwapEleven { their_player, their_pawn, .. } => {
                    let their_pos = view.pawn_positions[their_player.0 as usize][their_pawn.0 as usize];
                    let d = forward_steps(rules, start_exit, their_pos, me);
                    if d == best {
                        cands.push(m);
                    }
                },
                _ => {},
            }
            i = i + 1;
        }
        proof {
            assert(legal@.take(legal@.len() as int) =~= legal@);
            let top = |m: Move| top_swap(view@, legal@, m);
            let k0 = choose|k: int| 0 <= k < legal@.len() && #[trigger] legal@[k] is SwapEleven && swap_score(view@, legal@[k]) == best;
            assert forall|i: int| 0 <= i < legal@.len() implies pred(#[trigger] legal@[i]) == top(legal@[i]) by {
                if top(legal@[i]) {
                    assert(swap_score(view@, legal@[k0]) <= swap_score(view@, legal@[i]));
                }
            }
            lemma_filter_same(legal@, pred, top);
            lemma_filter_nonempty(legal@, pred, k0);
            lemma_filter_members(legal@, top);
        }
        let r = pick(&cands, rng);
        proof {
            let k = choose|k: int| 0 <= k < cands@.len() && cands@[k] == r;
            assert(legal@.contains(cands@[k]));
        }
        r
    }
}

} // verus!
