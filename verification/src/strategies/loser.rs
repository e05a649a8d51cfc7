//! "Loser": deliberately plays to lose. It never bumps an opponent while a
//! non-bumping move exists, then maximizes its own distance-to-home minus
//! the opponents' total; Pass wins the ties it takes part in.

use crate::board::{PlayerId, SpaceId};
use crate::card::Card;
use crate::moves::Move;
use crate::rules::StandardRules;
use crate::strategy::{ViewModel, Complexity, Strategy, StrategyDescription, StrategyView, legal_ok, positions, view_ok};
use crate::strategies::util::{
    is_bumping, lemma_filter_members, lemma_filter_nonempty, lemma_filter_same, lemma_filter_take, pick, pick_from,
    simulated_distance, spec_is_bumping, spec_simulated_distance,
};
use crate::rng::RngCall;
use crate::rng::GameRng;
use vstd::prelude::*;

verus! {

#[derive(Debug, Default, Clone, Copy)]
pub struct LoserStrategy;

/// Sum of the opponents' (seats `0..k` other than `me`) simulated distances.
pub open spec fn opponents_total(b: Seq<Seq<SpaceId>>, me: PlayerId, m: Move, k: int) -> int
    decreases k,
{
    if k <= 0 {
        0
    } else {
        opponents_total(b, me, m, k - 1) + if k - 1 == me.0 {
            0
        } else {
            spec_simulated_distance(b, me, m, PlayerId((k - 1) as u8))
        }
    }
}

/// Self-harm score: own distance-to-home minus the opponents' total.
pub open spec fn loser_score(v: ViewModel, m: Move) -> int {
    let b = v.positions;
    spec_simulated_distance(b, v.my_player, m, v.my_player) - opponents_total(b, v.my_player, m, v.num_players as int)
}

/// A move of greatest self-harm among the non-bumping moves (among all
/// moves if every move bumps), and Pass when Pass is one of those top
/// moves; Pass when nothing is legal.
pub open spec fn loser_ok(v: ViewModel, legal: Seq<Move>, r: Move) -> bool {
    let b = v.positions;
    let me = v.my_player;
    let any_quiet = exists|i: int| 0 <= i < legal.len() && !spec_is_bumping(#[trigger] legal[i], b, me);
    if legal.len() == 0 {
        r == Move::Pass
    } else {
        &&& legal.contains(r)
        &&& any_quiet ==> !spec_is_bumping(r, b, me)
        &&& forall|i: int|
            0 <= i < legal.len() && (any_quiet ==> !spec_is_bumping(#[trigger] legal[i], b, me)) ==> loser_score(
                v,
                legal[i],
            ) <= loser_score(v, r)
        &&& legal.contains(Move::Pass) && (any_quiet ==> !spec_is_bumping(Move::Pass, b, me)) && loser_score(
            v,
            Move::Pass,
        ) == loser_score(v, r) ==> r == Move::Pass
    }
}

fn score(view: &StrategyView, rules: &StandardRules, m: &Move) -> (r: i64)
    requires
        view_ok(view),
        crate::apply::move_slots_ok(positions(view), view.my_player, *m),
    ensures
        r as int == loser_score(view@, *m),
{
    let me = view.my_player;
    let own = simulated_distance(view, rules, me, m, me) as i64;
    let mut opp: i64 = 0;
    let mut p: usize = 0;
    while p < view.num_players
        invariant
            view_ok(view),
            crate::apply::move_slots_ok(positions(view), view.my_player, *m),
            me == view.my_player,
            p <= view.num_players,
            opp as int == opponents_total(positions(view), me, *m, p as int),
            0 <= opp <= 51000 * p,
        decreases view.num_players - p,
    {
        if p != me.0 as usize {
            let d = simulated_distance(view, rules, me, m, PlayerId(p as u8));
            opp = opp + d as i64;
        }
        p = p + 1;
    }
    own - opp
}

/// A move of greatest self-harm among the non-bumping moves of `legal`
/// (among all of them if every move bumps).
pub open spec fn loser_top(v: ViewModel, legal: Seq<Move>, m: Move) -> bool {
    let b = v.positions;
    let me = v.my_player;
    let any_quiet = exists|i: int| 0 <= i < legal.len() && !spec_is_bumping(#[trigger] legal[i], b, me);
    &&& any_quiet ==> !spec_is_bumping(m, b, me)
    &&& forall|i: int|
        0 <= i < legal.len() && (any_quiet ==> !spec_is_bumping(#[trigger] legal[i], b, me)) ==> loser_score(v, legal[i])
            <= loser_score(v, m)
}

/// Loser's top moves of `legal`, in order.
pub open spec fn loser_tops(v: ViewModel, legal: Seq<Move>) -> Seq<Move> {
    legal.filter(|m: Move| loser_top(v, legal, m))
}

impl Strategy for LoserStrategy {
    open spec fn name_text(&self) -> Seq<char> {
        "Loser"@
    }

    fn name(&self) -> (r: &'static str)
        ensures
            r@ == "Loser"@,
    {
        "Loser"
    }

    fn describe(&self) -> (r: StrategyDescription)
        ensures
            r.name@ == "Loser"@,
            r.summary@ == "Deliberately plays to lose — avoids bumps and maximizes own distance-to-home."@,
            r.complexity == Complexity::Medium,
    {
        StrategyDescription {
            name: "Loser".to_owned(),
            summary: "Deliberately plays to lose — avoids bumps and maximizes own distance-to-home.".to_owned(),
            complexity: Complexity::Medium,
        }
    }

    fn choose_card(&self, view: &StrategyView, rules: &StandardRules, rng: &mut GameRng) -> (r: usize)
        ensures
            r == 0,
    {
        0
    }

    open spec fn decide(&self, v: ViewModel, card: Card, legal: Seq<Move>, seed: u64, calls: Seq<RngCall>) -> (Move, Seq<RngCall>) {
        if legal.len() == 0 || loser_tops(v, legal).contains(Move::Pass) {
            (Move::Pass, Seq::empty())
        } else {
            pick_from(loser_tops(v, legal), seed, calls)
        }
    }

    fn choose_move(&self, view: &StrategyView, rules: &StandardRules, card: Card, legal: &[Move], rng: &mut GameRng) -> (r: Move)
        ensures
            loser_ok(view@, legal@, r),
    {
        if legal.len() == 0 {
            assert(rng.calls_model() =~= rng.calls_model() + Seq::<RngCall>::empty());
            return Move::Pass;
        }
        let me = view.my_player;
        let ghost b = positions(view);
        // Is there any non-bumping move?
        let mut any_quiet = false;
        let mut i: usize = 0;
        while i < legal.len()
            invariant
                view_ok(view),
                legal_ok(view, legal@),
                b == positions(view),
                me == view.my_player,
                i <= legal@.len(),
                any_quiet == exists|k: int| 0 <= k < i && !spec_is_bumping(#[trigger] legal@[k], b, me),
            decreases legal@.len() - i,
        {
            if !is_bumping(&legal[i], view, me) {
                any_quiet = true;
            }
            i = i + 1;
        }
        // Best self-harm score among the candidates.
        let mut best: i64 = i64::MIN;
        let mut found = false;
        let mut i: usize = 0;
        while i < legal.len()
            invariant
                view_ok(view),
                legal_ok(view, legal@),
                b == positions(view),
                me == view.my_player,
                i <= legal@.len(),
                forall|k: int|
                    0 <= k < i && (any_quiet ==> !spec_is_bumping(#[trigger] legal@[k], b, me)) ==> loser_score(
                        view@,
                        legal@[k],
                    ) <= best,
                found ==> exists|k: int|
                    0 <= k < i && (any_quiet ==> !spec_is_bumping(#[trigger] legal@[k], b, me)) && loser_score(
                        view@,
                        legal@[k],
                    ) == best,
                !found ==> forall|k: int| 0 <= k < i ==> any_quiet && spec_is_bumping(#[trigger] legal@[k], b, me),
            decreases legal@.len() - i,
        {
            if !any_quiet || !is_bumping(&legal[i], view, me) {
                let s = score(view, rules, &legal[i]);
                if !found || s > best {
                    best = s;
                }
                found = true;
            }
            i = i + 1;
        }
        proof {
            if !found {
                assert(legal@.len() > 0);
                if any_quiet {
                    let k = choose|k: int| 0 <= k < legal@.len() && !spec_is_bumping(#[trigger] legal@[k], b, me);
                    assert(spec_is_bumping(legal@[k], b, me));
                } else {
                    let l0 = legal@[0];
                    assert(any_quiet && spec_is_bumping(l0, b, me));
                }
            }
        }
        assert(found);
        let ghost pred = |m: Move| (any_quiet ==> !spec_is_bumping(m, b, me)) && loser_score(view@, m) == best as int;
        let mut cands: Vec<Move> = Vec::new();
        let mut i: usize = 0;
        while i < legal.len()
            invariant
                view_ok(view),
                legal_ok(view, legal@),
                b == positions(view),
                me == view.my_player,
                i <= legal@.len(),
                pred == (|m: Move| (any_quiet ==> !spec_is_bumping(m, b, me)) && loser_score(view@, m) == best as int),
                cands@ == legal@.take(i as int).filter(pred),
            decreases legal@.len() - i,
        {
            let m = legal[i];
            proof {
                lemma_filter_take(legal@, pred, i as int);
            }
            if !any_quiet || !is_bumping(&m, view, me) {
                if score(view, rules, &m) == best {
                    cands.push(m);
                }
            }
            i = i + 1;
        }
        proof {
            assert(legal@.take(legal@.len() as int) =~= legal@);
            let top = |m: Move| loser_top(view@, legal@, m);
            let k0 = choose|k: int|
                0 <= k < legal@.len() && (any_quiet ==> !spec_is_bumping(#[trigger] legal@[k], b, me)) && loser_score(
                    view@,
                    legal@[k],
                ) == best;
            assert forall|i: int| 0 <= i < legal@.len() implies pred(#[trigger] legal@[i]) == top(legal@[i]) by {
                if top(legal@[i]) {
                    assert(loser_score(view@, legal@[k0]) <= loser_score(view@, legal@[i]));
                }
            }
            lemma_filter_same(legal@, pred, top);
            lemma_filter_nonempty(legal@, pred, k0);
            lemma_filter_members(legal@, top);
            lemma_filter_members(legal@, pred);
            assert forall|k: int|
                0 <= k < legal@.len() && (any_quiet ==> !spec_is_bumping(#[trigger] legal@[k], b, me)) && loser_score(
                    view@,
                    legal@[k],
                ) == best implies cands@.contains(legal@[k]) by {
                lemma_filter_nonempty(legal@, pred, k);
            }
        }
        // Pass wins the ties it takes part in.
        let mut j: usize = 0;
        while j < cands.len()
            invariant
                b == positions(view),
                me == view.my_player,
                legal@.len() > 0,
                j <= cands@.len(),
                cands@ == loser_tops(view@, legal@),
                forall|k: int| 0 <= k < j ==> cands@[k] != Move::Pass,
                forall|k: int|
                    0 <= k < cands@.len() ==> legal@.contains(#[trigger] cands@[k]) && (any_quiet ==> !spec_is_bumping(
                        cands@[k],
                        b,
                        me,
                    )) && loser_score(view@, cands@[k]) == best,
                forall|k: int|
                    0 <= k < legal@.len() && (any_quiet ==> !spec_is_bumping(#[trigger] legal@[k], b, me)) ==> loser_score(
                        view@,
                        legal@[k],
                    ) <= best,
            decreases cands@.len() - j,
        {
            if cands[j] == Move::Pass {
                proof {
                    assert(legal@.contains(cands@[j as int]));
                }
                proof {
                    assert(loser_tops(view@, legal@).contains(Move::Pass));
                }
                return Move::Pass;
            }
            j = j + 1;
        }
        let r = pick(&cands, rng);
        proof {
            let k = choose|k: int| 0 <= k < cands@.len() && cands@[k] == r;
            assert(legal@.contains(cands@[k]));
            assert(!cands@.contains(Move::Pass));
            if legal@.contains(Move::Pass) && (any_quiet ==> !spec_is_bumping(Move::Pass, b, me)) && loser_score(
                view@,
                Move::Pass,
            ) == loser_score(view@, r) {
                let t = choose|t: int| 0 <= t < legal@.len() && legal@[t] == Move::Pass;
                assert(cands@.contains(legal@[t]));
            }
        }
        r
    }
}

} // verus!
