//! "Not Sorry": gets pawns out of Start whenever a move can; Greedy
//! otherwise.

use crate::board::{PlayerId, SpaceId};
use crate::card::Card;
use crate::moves::Move;
use crate::rng::{RngCall, next_u32, next_word};
use crate::rules::{StandardRules, spec_backward, spec_start_exit};
use crate::strategy::{ViewModel, Complexity, Strategy, StrategyDescription, StrategyView, legal_ok, view_ok};
use crate::strategies::util::{
    greedy_choice_ok, greedy_decide, greedy_pick, lemma_filter_members, lemma_filter_nonempty, lemma_filter_same,
    lemma_filter_take,
};
use crate::rng::GameRng;
use vstd::prelude::*;

verus! {

#[derive(Debug, Default, Clone, Copy)]
pub struct NotSorryStrategy;

/// Backward steps from `cur` to `exit` (already `d` taken): -1 when the way
/// back is cut, 70 when it is longer than 70 steps.
pub open spec fn back_steps(cur: SpaceId, player: PlayerId, exit: SpaceId, d: int) -> int
    decreases 71 - d,
{
    if d > 70 {
        70
    } else if cur == exit {
        d
    } else {
        match spec_backward(cur, player) {
            None => -1,
            Some(p) => if d + 1 > 70 {
                70
            } else {
                back_steps(p, player, exit, d + 1)
            },
        }
    }
}

/// The move takes a pawn out of Start (a StartPawn or a Sorry).
pub open spec fn is_start_move(m: Move) -> bool {
    m is StartPawn || m is Sorry
}

/// How far past `me`'s start exit a starting move lands.
pub open spec fn start_move_score(m: Move, me: PlayerId) -> int {
    let to = match m {
        Move::StartPawn { to, .. } => to,
        Move::Sorry { to, .. } => to,
        _ => SpaceId(0),
    };
    back_steps(to, me, spec_start_exit(me), 0)
}

fn distance_from_exit(rules: &StandardRules, to: SpaceId, me: PlayerId, start_exit: SpaceId) -> (r: i32)
    requires
        start_exit == spec_start_exit(me),
    ensures
        r as int == back_steps(to, me, start_exit, 0),
{
    let mut cur = to;
    let mut dist: i32 = 0;
    while cur != start_exit
        invariant
            0 <= dist <= 70,
            back_steps(to, me, start_exit, 0) == back_steps(cur, me, start_exit, dist as int),
        decreases 70 - dist,
    {
        match rules.backward_neighbor(cur, me) {
            Some(prev) => cur = prev,
            None => return -1,
        }
        dist = dist + 1;
        if dist > 70 {
            return 70;
        }
    }
    dist
}

/// When any legal move starts a pawn, one of those landing farthest past
/// the start exit; otherwise Greedy's choice.
pub open spec fn not_sorry_ok(v: ViewModel, legal: Seq<Move>, r: Move) -> bool {
    let me = v.my_player;
    if exists|i: int| 0 <= i < legal.len() && is_start_move(#[trigger] legal[i]) {
        &&& legal.contains(r)
        &&& is_start_move(r)
        &&& forall|i: int|
            0 <= i < legal.len() && is_start_move(#[trigger] legal[i]) ==> start_move_score(legal[i], me)
                <= start_move_score(r, me)
    } else {
        legal.len() > 0 ==> greedy_choice_ok(v, legal, r)
    }
}

/// A starting move of `legal` that lands no nearer the start exit than
/// any other starting move of `legal`.
pub open spec fn top_start(legal: Seq<Move>, me: PlayerId, m: Move) -> bool {
    &&& is_start_move(m)
    &&& forall|i: int|
        0 <= i < legal.len() && is_start_move(#[trigger] legal[i]) ==> start_move_score(legal[i], me) <= start_move_score(m, me)
}

/// The best starting moves of `legal`, in order.
pub open spec fn top_starts(legal: Seq<Move>, me: PlayerId) -> Seq<Move> {
    legal.filter(|m: Move| top_start(legal, me, m))
}

impl Strategy for NotSorryStrategy {
    open spec fn name_text(&self) -> Seq<char> {
        "Not Sorry"@
    }

    fn name(&self) -> (r: &'static str)
        ensures
            r@ == "Not Sorry"@,
    {
        "Not Sorry"
    }

    fn describe(&self) -> (r: StrategyDescription)
        ensures
            r.name@ == "Not Sorry"@,
            r.summary@ == "Prioritizes starting pawns off their Start square; Greedy otherwise."@,
            r.complexity == Complexity::Low,
    {
        StrategyDescription {
            name: "Not Sorry".to_owned(),
            summary: "Prioritizes starting pawns off their Start square; Greedy otherwise.".to_owned(),
            complexity: Complexity::Low,
        }
    }

    fn choose_card(&self, view: &StrategyView, rules: &StandardRules, rng: &mut GameRng) -> (r: usize)
        ensures
            r == 0,
    {
        0
    }

    open spec fn decide(&self, v: ViewModel, card: Card, legal: Seq<Move>, seed: u64, calls: Seq<RngCall>) -> (Move, Seq<RngCall>) {
        if exists|i: int| 0 <= i < legal.len() && is_start_move(#[trigger] legal[i]) {
            let c = top_starts(legal, v.my_player);
            (c[(next_word(seed, calls) as int) % (c.len() as int)], seq![RngCall::Word])
        } else {
            greedy_decide(v, legal, seed, calls)
        }
    }

    fn choose_move(&self, view: &StrategyView, rules: &StandardRules, card: Card, legal: &[Move], rng: &mut GameRng) -> (r: Move)
        ensures
            not_sorry_ok(view@, legal@, r),
    {
        let me = view.my_player;
        let start_exit = rules.start_exit(me);
        // Best landing distance over the starting moves, if any.
        let mut any = false;
        let mut best: i32 = -1;
        let mut i: usize = 0;
        while i < legal.len()
            invariant
                me == view.my_player,
                start_exit == spec_start_exit(me),
                i <= legal@.len(),
                any == exists|k: int| 0 <= k < i && is_start_move(#[trigger] legal@[k]),
                forall|k: int|
                    0 <= k < i && is_start_move(#[trigger] legal@[k]) ==> start_move_score(legal@[k], me) <= best,
                any ==> exists|k: int|
                    0 <= k < i && is_start_move(#[trigger] legal@[k]) && start_move_score(legal@[k], me) == best,
                !any ==> best == -1,
            decreases legal@.len() - i,
        {
            let m = legal[i];
            match m {
                Move::StartPawn { to, .. } | Move::Sorry { to, .. } => {
                    let d = distance_from_exit(rules, to, me, start_exit);
                    if !any || d > best {
                        best = d;
                    }
                    any = true;
                },
                _ => {},
            }
            i = i + 1;
        }
        if !any {
            return greedy_pick(view, rules, legal, rng);
        }
        let ghost pred = |m: Move| is_start_move(m) && start_move_score(m, me) == best as int;
        let mut cands: Vec<Move> = Vec::new();
        let mut i: usize = 0;
        while i < legal.len()
            invariant
                me == view.my_player,
                start_exit == spec_start_exit(me),
                i <= legal@.len(),
                pred == (|m: Move| is_start_move(m) && start_move_score(m, me) == best as int),
                cands@ == legal@.take(i as int).filter(pred),
            decreases legal@.len() - i,
        {
            let m = legal[i];
            proof {
                lemma_filter_take(legal@, pred, i as int);
            }
            match m {
                Move::StartPawn { to, .. } | Move::Sorry { to, .. } => {
                    let d = distance_from_exit(rules, to, me, start_exit);
                    if d == best {
                        cands.push(m);
                    }
                },
                _ => {},
            }
            i = i + 1;
        }
        proof {
            assert(legal@.take(legal@.len() as int) =~= legal@);
            let top = |m: Move| top_start(legal@, me, m);
            let k0 = choose|k: int|
                0 <= k < legal@.len() && is_start_move(#[trigger] legal@[k]) && start_move_score(legal@[k], me) == best;
            assert forall|i: int| 0 <= i < legal@.len() implies pred(#[trigger] legal@[i]) == top(legal@[i]) by {
                if top(legal@[i]) {
                    assert(start_move_score(legal@[k0], me) <= start_move_score(legal@[i], me));
                }
            }
            lemma_filter_same(legal@, pred, top);
            lemma_filter_nonempty(legal@, pred, k0);
            lemma_filter_members(legal@, top);
        }
        let ghost before = *rng;
        let idx = (next_u32(rng) as usize) % cands.len();
        let r = cands[idx];
        proof {
            assert(legal@.contains(cands@[idx as int]));
            assert(rng.calls_model() =~= before.calls_model() + seq![RngCall::Word]);
        }
        r
    }
}

} // verus!
