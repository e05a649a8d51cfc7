//! "Reverse": banks on a 4 or a 10 to go backward and reach Home from the
//! near side. It keeps a primary pawn (its lowest pawn out of Start) near
//! the start exit while 4s or 10s remain, retreats it when it can, and
//! otherwise plays Greedy.

use crate::board::{PawnId, PlayerId, SpaceId, Space};
use crate::card::Card;
use crate::moves::Move;
use crate::rules::{StandardRules, spec_classify, spec_forward, spec_start_area_id, spec_start_exit};
use crate::strategy::{ViewModel, Complexity, Strategy, StrategyDescription, StrategyView, legal_ok, positions, view_ok};
use crate::strategies::util::{
    filter_moves, greedy_among, greedy_decide, greedy_or_pass, greedy_pick, lemma_filter_members,
    lemma_filter_nonempty, lemma_filter_same, lemma_filter_take, lemma_greedy_on_filter, pick, pick_from,
    remaining_count, spec_remaining,
};
use crate::rng::RngCall;
use crate::rng::GameRng;
use vstd::prelude::*;

verus! {

#[derive(Debug, Default, Clone, Copy)]
pub struct ReverseStrategy;

/// How close to the start exit the primary is kept.
pub const WINDOW: u32 = 5;

/// Forward steps from `cur` (already `steps - 1` out) to `to` within 70.
pub open spec fn reach_steps(cur: SpaceId, to: SpaceId, player: PlayerId, steps: int) -> Option<int>
    decreases 71 - steps,
{
    if steps > 70 || steps < 1 {
        None
    } else {
        match spec_forward(cur, player) {
            Some(n) => if n == to {
                Some(steps)
            } else {
                reach_steps(n, to, player, steps + 1)
            },
            None => None,
        }
    }
}

/// Forward distance from `from` to `to`, none for Start areas or beyond 70.
pub open spec fn spec_distance_forward(from: SpaceId, to: SpaceId, player: PlayerId) -> Option<int> {
    if from == to {
        Some(0)
    } else if spec_classify(to) matches Some(Space::StartArea(_)) {
        None
    } else {
        reach_steps(from, to, player, 1)
    }
}

fn distance_forward(rules: &StandardRules, from: SpaceId, to: SpaceId, player: PlayerId) -> (r: Option<u32>)
    ensures
        match r {
            Some(d) => spec_distance_forward(from, to, player) == Some(d as int),
            None => spec_distance_forward(from, to, player) is None,
        },
{
    if from == to {
        return Some(0);
    }
    match rules.classify(to) {
        Some(Space::StartArea(_)) => return None,
        _ => {},
    }
    let mut cur = from;
    let mut steps: u32 = 1;
    while steps <= 70
        invariant
            1 <= steps <= 71,
            spec_distance_forward(from, to, player) == reach_steps(cur, to, player, steps as int),
        decreases 71 - steps,
    {
        match rules.forward_neighbor(cur, player) {
            Some(next) => {
                if next == to {
                    return Some(steps);
                }
                cur = next;
            },
            None => return None,
        }
        steps = steps + 1;
    }
    None
}

/// `to` stays within the window past the start exit (or its distance is
/// unknown).
pub open spec fn within_window(to: SpaceId, me: PlayerId) -> bool {
    match spec_distance_forward(spec_start_exit(me), to, me) {
        Some(d) => d <= 5,
        None => true,
    }
}

/// The move keeps the primary pawn within the window.
pub open spec fn keeps_primary_near(m: Move, primary: PawnId, me: PlayerId) -> bool {
    match m {
        Move::Advance { pawn, to, .. } => pawn == primary ==> within_window(to, me),
        Move::SplitSeven { first, second } => (first.pawn == primary ==> within_window(first.to, me)) && (second.pawn
            == primary ==> within_window(second.to, me)),
        _ => true,
    }
}

/// The lowest pawn index in `i..4` not in the Start area `sa`.
pub open spec fn first_out(row: Seq<SpaceId>, sa: SpaceId, i: int) -> Option<int>
    decreases 4 - i,
{
    if i >= 4 {
        None
    } else if row[i] != sa {
        Some(i)
    } else {
        first_out(row, sa, i + 1)
    }
}

pub open spec fn primary_of(v: ViewModel) -> Option<int> {
    first_out(v.positions[v.my_player.0 as int], spec_start_area_id(v.my_player), 0)
}

pub open spec fn retreats_primary(m: Move, primary: PawnId) -> bool {
    m matches Move::Retreat { pawn, .. } && pawn == primary
}

/// Reverse's priority. With no primary: start one if possible, else Greedy.
/// With a primary: on a 4 or 10 retreat it if possible; else, while 4s or
/// 10s remain undiscarded, Greedy over the moves keeping it near the start
/// exit when there are any; else Greedy.
pub open spec fn reverse_ok(v: ViewModel, card: Card, legal: Seq<Move>, r: Move) -> bool {
    let me = v.my_player;
    match primary_of(v) {
        None => if exists|i: int| 0 <= i < legal.len() && #[trigger] legal[i] is StartPawn {
            legal.contains(r) && r is StartPawn
        } else {
            greedy_or_pass(v, legal, r)
        },
        Some(pi) => {
            let primary = PawnId(pi as u8);
            let hoard = spec_remaining(v.discard, Card::Four) + spec_remaining(v.discard, Card::Ten);
            let near = |m: Move| keeps_primary_near(m, primary, me);
            if (card == Card::Four || card == Card::Ten) && exists|i: int|
                0 <= i < legal.len() && retreats_primary(#[trigger] legal[i], primary) {
                legal.contains(r) && retreats_primary(r, primary)
            } else if hoard > 0 && exists|i: int| 0 <= i < legal.len() && near(#[trigger] legal[i]) {
                greedy_among(v, legal, near, r)
            } else {
                greedy_or_pass(v, legal, r)
            }
        },
    }
}

/// The moves of `legal` retreating pawn `primary`, in order.
pub open spec fn retreats_of(legal: Seq<Move>, primary: PawnId) -> Seq<Move> {
    legal.filter(|m: Move| retreats_primary(m, primary))
}

/// The moves of `legal` keeping pawn `primary` near `me`'s start exit, in
/// order.
pub open spec fn near_of(legal: Seq<Move>, primary: PawnId, me: PlayerId) -> Seq<Move> {
    legal.filter(|m: Move| keeps_primary_near(m, primary, me))
}

/// The starting moves of `legal`, in order.
pub open spec fn starts_of(legal: Seq<Move>) -> Seq<Move> {
    legal.filter(|m: Move| m is StartPawn)
}

/// Reverse's pick, following `reverse_ok`'s priority and picking at random
/// within the chosen tier; with the generator's use.
pub open spec fn reverse_decide(v: ViewModel, card: Card, legal: Seq<Move>, seed: u64, calls: Seq<RngCall>) -> (Move, Seq<RngCall>) {
    match primary_of(v) {
        None => if starts_of(legal).len() > 0 {
            pick_from(starts_of(legal), seed, calls)
        } else {
            greedy_decide(v, legal, seed, calls)
        },
        Some(pi) => {
            let primary = PawnId(pi as u8);
            let hoard = spec_remaining(v.discard, Card::Four) + spec_remaining(v.discard, Card::Ten);
            if (card == Card::Four || card == Card::Ten) && retreats_of(legal, primary).len() > 0 {
                pick_from(retreats_of(legal, primary), seed, calls)
            } else if hoard > 0 && near_of(legal, primary, v.my_player).len() > 0 {
                greedy_decide(v, near_of(legal, primary, v.my_player), seed, calls)
            } else {
                greedy_decide(v, legal, seed, calls)
            }
        },
    }
}

fn primary_pawn(view: &StrategyView, rules: &StandardRules) -> (r: Option<u8>)
    requires
        view_ok(view),
    ensures
        match r {
            Some(i) => i < 4 && primary_of(view@) == Some(i as int),
            None => primary_of(view@) is None,
        },
{
    let me = view.my_player;
    let start_area = rules.start_area(me);
    let row = view.pawn_positions[me.0 as usize].as_slice();
    assert(row@ == positions(view)[me.0 as int]);
    let mut p: u8 = 0;
    while p < 4
        invariant
            view_ok(view),
            row@ == positions(view)[me.0 as int],
            row@.len() >= 4,
            start_area == spec_start_area_id(me),
            me == view.my_player,
            p <= 4,
            primary_of(view@) == first_out(row@, start_area, p as int),
        decreases 4 - p,
    {
        if row[p as usize] != start_area {
            return Some(p);
        }
        p = p + 1;
    }
    None
}

fn keeps_near(rules: &StandardRules, m: &Move, primary: PawnId, me: PlayerId, exit: SpaceId) -> (r: bool)
    requires
        exit == spec_start_exit(me),
    ensures
        r == keeps_primary_near(*m, primary, me),
{
    let window_ok = |to: SpaceId| -> (b: bool)
        ensures
            b == within_window(to, me),
        {
            match distance_forward(rules, exit, to, me) {
                Some(d) => d <= WINDOW,
                None => true,
            }
        };
    match *m {
        Move::Advance { pawn, to, .. } => {
            if pawn == primary {
                window_ok(to)
            } else {
                true
            }
        },
        Move::SplitSeven { first, second } => {
            let a = if first.pawn == primary {
                window_ok(first.to)
            } else {
                true
            };
            let b = if second.pawn == primary {
                window_ok(second.to)
            } else {
                true
            };
            a && b
        },
        _ => true,
    }
}

impl Strategy for ReverseStrategy {
    open spec fn name_text(&self) -> Seq<char> {
        "Reverse"@
    }

    fn name(&self) -> (r: &'static str)
        ensures
            r@ == "Reverse"@,
    {
        "Reverse"
    }

    fn describe(&self) -> (r: StrategyDescription)
        ensures
            r.name@ == "Reverse"@,
            r.summary@ == "Holds one pawn near start_exit and hopes for a 4 or chain of 10s."@,
            r.complexity == Complexity::Medium,
    {
        StrategyDescription {
            name: "Reverse".to_owned(),
            summary: "Holds one pawn near start_exit and hopes for a 4 or chain of 10s.".to_owned(),
            complexity: Complexity::Medium,
        }
    }

    fn choose_card(&self, view: &StrategyView, rules: &StandardRules, rng: &mut GameRng) -> (r: usize)
        ensures
            r == 0,
    {
        0
    }

    open spec fn decide(&self, v: ViewModel, card: Card, legal: Seq<Move>, seed: u64, calls: Seq<RngCall>) -> (Move, Seq<RngCall>) {
        reverse_decide(v, card, legal, seed, calls)
    }

    fn choose_move(&self, view: &StrategyView, rules: &StandardRules, card: Card, legal: &[Move], rng: &mut GameRng) -> (r: Move)
        ensures
            reverse_ok(view@, card, legal@, r),
    {
        let me = view.my_player;
        let hoard = remaining_count(view, rules, Card::Four) + remaining_count(view, rules, Card::Ten);
        match primary_pawn(view, rules) {
            None => {
                let ghost is_start = |m: Move| m is StartPawn;
                let mut starts: Vec<Move> = Vec::new();
                let mut i: usize = 0;
                while i < legal.len()
                    invariant
                        i <= legal@.len(),
                        is_start == (|m: Move| m is StartPawn),
                        starts@ == legal@.take(i as int).filter(is_start),
                    decreases legal@.len() - i,
                {
                    let m = legal[i];
                    proof {
                        lemma_filter_take(legal@, is_start, i as int);
                    }
                    if let Move::StartPawn { .. } = m {
                        starts.push(m);
                    }
                    i = i + 1;
                }
                proof {
                    assert(legal@.take(legal@.len() as int) =~= legal@);
                    lemma_filter_members(legal@, is_start);
                    if exists|k: int| 0 <= k < legal@.len() && #[trigger] legal@[k] is StartPawn {
                        let k = choose|k: int| 0 <= k < legal@.len() && #[trigger] legal@[k] is StartPawn;
                        lemma_filter_nonempty(legal@, is_start, k);
                    }
                }
                if starts.len() > 0 {
                    let r = pick(&starts, rng);
                    proof {
                        let k = choose|k: int| 0 <= k < starts@.len() && starts@[k] == r;
                        assert(legal@.contains(starts@[k]));
                    }
                    return r;
                }
                greedy_pick(view, rules, legal, rng)
            },
            Some(pi) => {
                let primary = PawnId(pi);
                let ghost retreating = |m: Move| retreats_primary(m, primary);
                if card == Card::Four || card == Card::Ten {
                    let mut retreats: Vec<Move> = Vec::new();
                    let mut i: usize = 0;
                    while i < legal.len()
                        invariant
                            i <= legal@.len(),
                            retreating == (|m: Move| retreats_primary(m, primary)),
                            retreats@ == legal@.take(i as int).filter(retreating),
                        decreases legal@.len() - i,
                    {
                        let m = legal[i];
                        proof {
                            lemma_filter_take(legal@, retreating, i as int);
                        }
                        if let Move::Retreat { pawn, .. } = m {
                            if pawn == primary {
                                retreats.push(m);
                            }
                        }
                        i = i + 1;
                    }
                    proof {
                        assert(legal@.take(legal@.len() as int) =~= legal@);
                        lemma_filter_members(legal@, retreating);
                        if exists|k: int| 0 <= k < legal@.len() && retreats_primary(#[trigger] legal@[k], primary) {
                            let k = choose|k: int| 0 <= k < legal@.len() && retreats_primary(#[trigger] legal@[k], primary);
                            lemma_filter_nonempty(legal@, retreating, k);
                        }
                    }
                    if retreats.len() > 0 {
                        let r = pick(&retreats, rng);
                        proof {
                            let k = choose|k: int| 0 <= k < retreats@.len() && retreats@[k] == r;
                            assert(legal@.contains(retreats@[k]));
                        }
                        return r;
                    }
                }
                if hoard > 0 {
                    let exit = rules.start_exit(me);
                    let ghost near = |m: Move| keeps_primary_near(m, primary, me);
                    let mut keep: Vec<bool> = Vec::new();
                    let mut any_near = false;
                    let mut i: usize = 0;
                    while i < legal.len()
                        invariant
                            exit == spec_start_exit(me),
                            i <= legal@.len(),
                            keep@.len() == i,
                            forall|k: int| 0 <= k < i ==> keep@[k] == keeps_primary_near(#[trigger] legal@[k], primary, me),
                            any_near == exists|k: int| 0 <= k < i && keeps_primary_near(#[trigger] legal@[k], primary, me),
                        decreases legal@.len() - i,
                    {
                        let ok = keeps_near(rules, &legal[i], primary, me, exit);
                        keep.push(ok);
                        if ok {
                            any_near = true;
                        }
                        i = i + 1;
                    }
                    proof {
                        if exists|k: int| 0 <= k < legal@.len() && near(#[trigger] legal@[k]) {
                            let k = choose|k: int| 0 <= k < legal@.len() && near(#[trigger] legal@[k]);
                            lemma_filter_nonempty(legal@, near, k);
                        } else {
                            lemma_filter_members(legal@, near);
                            if legal@.filter(near).len() > 0 {
                                assert(near(legal@.filter(near)[0]));
                            }
                        }
                    }
                    if any_near {
                        let allowed = filter_moves(legal, Ghost(near), &keep);
                        assert(allowed@.len() > 0) by {
                            let k = choose|k: int| 0 <= k < legal@.len() && near(#[trigger] legal@[k]);
                            assert(allowed@.contains(legal@[k]));
                        }
                        assert(legal_ok(view, allowed@)) by {
                            assert forall|k: int| 0 <= k < allowed@.len() implies crate::apply::move_slots_ok(
                                positions(view),
                                view.my_player,
                                #[trigger] allowed@[k],
                            ) by {
                                let j = choose|j: int| 0 <= j < legal@.len() && legal@[j] == allowed@[k];
                                assert(crate::apply::move_slots_ok(positions(view), view.my_player, legal@[j]));
                            }
                        }
                        let r = greedy_pick(view, rules, allowed.as_slice(), rng);
                        proof {
                            lemma_greedy_on_filter(view@, legal@, allowed@, near, r);
                        }
                        return r;
                    }
                }
                greedy_pick(view, rules, legal, rng)
            },
        }
    }
}

} // verus!
