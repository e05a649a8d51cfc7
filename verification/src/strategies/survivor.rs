//! "Survivor": attacks the current leader (the opponent with the smallest
//! total distance-to-home). Priority: a direct bump of a leader pawn, then a
//! Sorry on the leader, then an 11-swap with the leader, then Greedy.

use crate::board::{PawnId, PlayerId, SpaceId, occupies, slot_before};
use crate::card::Card;
use crate::moves::Move;
use crate::rules::StandardRules;
use crate::strategy::{ViewModel, Complexity, Strategy, StrategyDescription, StrategyView, legal_ok, positions, view_ok};
use crate::strategies::util::{
    bumps_opponent, greedy_decide, greedy_or_pass, greedy_pick, leader, lemma_filter_members, lemma_filter_nonempty,
    lemma_filter_take, pick, pick_from, seat_total,
};
use crate::rng::{RngCall, advanced};
use crate::rng::GameRng;
use vstd::prelude::*;

verus! {

#[derive(Debug, Default, Clone, Copy)]
pub struct SurvivorStrategy;

/// The first opponent pawn (in (player, pawn) order) on `s` belongs to `t`.
pub open spec fn first_opponent_is(b: Seq<Seq<SpaceId>>, me: PlayerId, s: SpaceId, t: PlayerId) -> bool {
    exists|j: PawnId|
        t != me && #[trigger] occupies(b, (t, j), s) && forall|q: PlayerId, j2: PawnId|
            #![trigger occupies(b, (q, j2), s)]
            q != me && slot_before((q, j2), (t, j)) ==> !occupies(b, (q, j2), s)
}

/// A forward or backward move landing where `t`'s pawn is the first
/// opponent hit.
pub open spec fn bumps_target(b: Seq<Seq<SpaceId>>, me: PlayerId, m: Move, t: PlayerId) -> bool {
    match m {
        Move::Advance { to, .. } => first_opponent_is(b, me, to, t),
        Move::Retreat { to, .. } => first_opponent_is(b, me, to, t),
        _ => false,
    }
}

pub open spec fn sorry_on(m: Move, t: PlayerId) -> bool {
    m matches Move::Sorry { their_player, .. } && their_player == t
}

pub open spec fn swap_with(m: Move, t: PlayerId) -> bool {
    m matches Move::SwapEleven { their_player, .. } && their_player == t
}

/// Attack priority against `t`: a bump of `t`, else a Sorry on `t`, else a
/// swap with `t`, else Greedy.
pub open spec fn attack_ok(v: ViewModel, legal: Seq<Move>, t: PlayerId, r: Move) -> bool {
    let b = v.positions;
    let me = v.my_player;
    if exists|i: int| 0 <= i < legal.len() && bumps_target(b, me, #[trigger] legal[i], t) {
        legal.contains(r) && bumps_target(b, me, r, t)
    } else if exists|i: int| 0 <= i < legal.len() && sorry_on(#[trigger] legal[i], t) {
        legal.contains(r) && sorry_on(r, t)
    } else if exists|i: int| 0 <= i < legal.len() && swap_with(#[trigger] legal[i], t) {
        legal.contains(r) && swap_with(r, t)
    } else {
        greedy_or_pass(v, legal, r)
    }
}

/// `p` is the leader seen by `v`: an opponent seat with the least total
/// distance-to-home, the first such seat on ties.
pub open spec fn is_leader(v: ViewModel, p: PlayerId) -> bool {
    let b = v.positions;
    let me = v.my_player;
    &&& p != me
    &&& (p.0 as int) < v.num_players
    &&& forall|q: int|
        #![trigger seat_total(b, q)]
        0 <= q < v.num_players && q != me.0 ==> seat_total(b, p.0 as int) <= seat_total(b, q)
    &&& forall|q: int|
        #![trigger seat_total(b, q)]
        0 <= q < p.0 && q != me.0 ==> seat_total(b, p.0 as int) < seat_total(b, q)
}

proof fn lemma_leader_unique(v: ViewModel, p: PlayerId, t: PlayerId)
    requires
        is_leader(v, p),
        is_leader(v, t),
    ensures
        p == t,
{
    let b = v.positions;
    if p.0 < t.0 {
        assert(seat_total(b, t.0 as int) < seat_total(b, p.0 as int));
    } else if t.0 < p.0 {
        assert(seat_total(b, p.0 as int) < seat_total(b, t.0 as int));
    }
}

proof fn lemma_first_opponent(b: Seq<Seq<SpaceId>>, me: PlayerId, s: SpaceId, pp: (PlayerId, PawnId), t: PlayerId)
    requires
        pp.0 != me,
        occupies(b, pp, s),
        forall|q: PlayerId, j: PawnId|
            #![trigger occupies(b, (q, j), s)]
            q != me && slot_before((q, j), pp) ==> !occupies(b, (q, j), s),
    ensures
        first_opponent_is(b, me, s, t) <==> pp.0 == t,
{
    if pp.0 == t {
        assert(occupies(b, (t, pp.1), s));
    }
    if first_opponent_is(b, me, s, t) {
        let j = choose|j: PawnId|
            t != me && #[trigger] occupies(b, (t, j), s) && forall|q: PlayerId, j2: PawnId|
                #![trigger occupies(b, (q, j2), s)]
                q != me && slot_before((q, j2), (t, j)) ==> !occupies(b, (q, j2), s);
        if slot_before((t, j), pp) {
            assert(!occupies(b, (t, j), s));
        } else if slot_before(pp, (t, j)) {
            assert(occupies(b, (pp.0, pp.1), s));
        }
    }
}

fn hits_target(view: &StrategyView, me: PlayerId, m: &Move, t: PlayerId) -> (r: bool)
    requires
        view_ok(view),
        me == view.my_player,
    ensures
        r == bumps_target(positions(view), me, *m, t),
{
    let to = match *m {
        Move::Advance { to, .. } | Move::Retreat { to, .. } => to,
        _ => return false,
    };
    match bumps_opponent(view, me, to) {
        Some(pp) => {
            proof {
                lemma_first_opponent(positions(view), me, to, pp, t);
            }
            pp.0 == t
        },
        None => {
            proof {
                if first_opponent_is(positions(view), me, to, t) {
                    let j = choose|j: PawnId|
                        t != me && #[trigger] occupies(positions(view), (t, j), to) && forall|q: PlayerId, j2: PawnId|
                            #![trigger occupies(positions(view), (q, j2), to)]
                            q != me && slot_before((q, j2), (t, j)) ==> !occupies(positions(view), (q, j2), to);
                }
            }
            false
        },
    }
}

/// Which attack tier a move belongs to against `t`: 1 bump, 2 Sorry, 3 swap.
fn tier_of(view: &StrategyView, me: PlayerId, m: &Move, t: PlayerId, tier: u8) -> (r: bool)
    requires
        view_ok(view),
        me == view.my_player,
        1 <= tier <= 3,
    ensures
        tier == 1 ==> r == bumps_target(positions(view), me, *m, t),
        tier == 2 ==> r == sorry_on(*m, t),
        tier == 3 ==> r == swap_with(*m, t),
{
    if tier == 1 {
        hits_target(view, me, m, t)
    } else if tier == 2 {
        match *m {
            Move::Sorry { their_player, .. } => their_player == t,
            _ => false,
        }
    } else {
        match *m {
            Move::SwapEleven { their_player, .. } => their_player == t,
            _ => false,
        }
    }
}

pub open spec fn in_tier(b: Seq<Seq<SpaceId>>, me: PlayerId, m: Move, t: PlayerId, tier: u8) -> bool {
    if tier == 1 {
        bumps_target(b, me, m, t)
    } else if tier == 2 {
        sorry_on(m, t)
    } else {
        swap_with(m, t)
    }
}

/// The moves of `legal` in attack tier `tier` against `t`, in order.
pub open spec fn attack_tier(v: ViewModel, legal: Seq<Move>, t: PlayerId, tier: u8) -> Seq<Move> {
    legal.filter(|m: Move| in_tier(v.positions, v.my_player, m, t, tier))
}

/// The attack on `t` picked at random from the first non-empty tier (bump,
/// Sorry, swap), else Greedy's pick; with the generator's use.
pub open spec fn attack_decide(v: ViewModel, legal: Seq<Move>, t: PlayerId, seed: u64, calls: Seq<RngCall>) -> (Move, Seq<RngCall>) {
    if attack_tier(v, legal, t, 1).len() > 0 {
        pick_from(attack_tier(v, legal, t, 1), seed, calls)
    } else if attack_tier(v, legal, t, 2).len() > 0 {
        pick_from(attack_tier(v, legal, t, 2), seed, calls)
    } else if attack_tier(v, legal, t, 3).len() > 0 {
        pick_from(attack_tier(v, legal, t, 3), seed, calls)
    } else {
        greedy_decide(v, legal, seed, calls)
    }
}

fn tier_moves(view: &StrategyView, me: PlayerId, legal: &[Move], t: PlayerId, tier: u8) -> (r: Vec<Move>)
    requires
        view_ok(view),
        me == view.my_player,
        1 <= tier <= 3,
    ensures
        r@ == attack_tier(view@, legal@, t, tier),
        forall|k: int|
            0 <= k < r@.len() ==> legal@.contains(#[trigger] r@[k]) && in_tier(positions(view), me, r@[k], t, tier),
        (exists|i: int| 0 <= i < legal@.len() && in_tier(positions(view), me, #[trigger] legal@[i], t, tier))
            ==> r@.len() > 0,
{
    let ghost pred = |m: Move| in_tier(view@.positions, view@.my_player, m, t, tier);
    let mut out: Vec<Move> = Vec::new();
    let mut i: usize = 0;
    while i < legal.len()
        invariant
            view_ok(view),
            me == view.my_player,
            1 <= tier <= 3,
            i <= legal@.len(),
            pred == (|m: Move| in_tier(view@.positions, view@.my_player, m, t, tier)),
            out@ == legal@.take(i as int).filter(pred),
        decreases legal@.len() - i,
    {
        let m = legal[i];
        proof {
            lemma_filter_take(legal@, pred, i as int);
        }
        if tier_of(view, me, &m, t, tier) {
            out.push(m);
        }
        i = i + 1;
    }
    proof {
        assert(legal@.take(legal@.len() as int) =~= legal@);
        lemma_filter_members(legal@, pred);
        if exists|i: int| 0 <= i < legal@.len() && in_tier(positions(view), me, #[trigger] legal@[i], t, tier) {
            let i = choose|i: int| 0 <= i < legal@.len() && in_tier(positions(view), me, #[trigger] legal@[i], t, tier);
            lemma_filter_nonempty(legal@, pred, i);
        }
    }
    out
}

/// Attack `t` following the priority of `attack_ok`.
pub(crate) fn attack_pick(view: &StrategyView, rules: &StandardRules, legal: &[Move], t: PlayerId, rng: &mut GameRng) -> (r: Move)
    requires
        view_ok(view),
        legal_ok(view, legal@),
    ensures
        attack_ok(view@, legal@, t, r),
        r == attack_decide(view@, legal@, t, old(rng).seed_model(), old(rng).calls_model()).0,
        advanced(*old(rng), *final(rng), attack_decide(view@, legal@, t, old(rng).seed_model(), old(rng).calls_model()).1),
{
    let me = view.my_player;
    let ghost b = positions(view);
    let bumpers = tier_moves(view, me, legal, t, 1);
    if bumpers.len() > 0 {
        let r = pick(&bumpers, rng);
        proof {
            let k = choose|k: int| 0 <= k < bumpers@.len() && bumpers@[k] == r;
            assert(legal@.contains(bumpers@[k]));
        }
        return r;
    }
    assert(!exists|i: int| 0 <= i < legal@.len() && bumps_target(b, me, #[trigger] legal@[i], t)) by {
        if exists|i: int| 0 <= i < legal@.len() && bumps_target(b, me, #[trigger] legal@[i], t) {
            let i = choose|i: int| 0 <= i < legal@.len() && bumps_target(b, me, #[trigger] legal@[i], t);
            assert(in_tier(b, me, legal@[i], t, 1));
        }
    }
    let sorries = tier_moves(view, me, legal, t, 2);
    if sorries.len() > 0 {
        let r = pick(&sorries, rng);
        proof {
            let k = choose|k: int| 0 <= k < sorries@.len() && sorries@[k] == r;
            assert(legal@.contains(sorries@[k]));
        }
        return r;
    }
    assert(!exists|i: int| 0 <= i < legal@.len() && sorry_on(#[trigger] legal@[i], t)) by {
        if exists|i: int| 0 <= i < legal@.len() && sorry_on(#[trigger] legal@[i], t) {
            let i = choose|i: int| 0 <= i < legal@.len() && sorry_on(#[trigger] legal@[i], t);
            assert(in_tier(b, me, legal@[i], t, 2));
        }
    }
    let swaps = tier_moves(view, me, legal, t, 3);
    if swaps.len() > 0 {
        let r = pick(&swaps, rng);
        proof {
            let k = choose|k: int| 0 <= k < swaps@.len() && swaps@[k] == r;
            assert(legal@.contains(swaps@[k]));
        }
        return r;
    }
    assert(!exists|i: int| 0 <= i < legal@.len() && swap_with(#[trigger] legal@[i], t)) by {
        if exists|i: int| 0 <= i < legal@.len() && swap_with(#[trigger] legal@[i], t) {
            let i = choose|i: int| 0 <= i < legal@.len() && swap_with(#[trigger] legal@[i], t);
            assert(in_tier(b, me, legal@[i], t, 3));
        }
    }
    greedy_pick(view, rules, legal, rng)
}

/// The leader seen by `v`, if there is one.
pub open spec fn leader_of(v: ViewModel) -> Option<PlayerId> {
    if exists|p: PlayerId| is_leader(v, p) {
        Some(choose|p: PlayerId| is_leader(v, p))
    } else {
        None
    }
}

/// Attack the leader when there is one, else play Greedy.
pub open spec fn survivor_ok(v: ViewModel, legal: Seq<Move>, r: Move) -> bool {
    &&& forall|t: PlayerId| is_leader(v, t) ==> attack_ok(v, legal, t, r)
    &&& (forall|t: PlayerId| !is_leader(v, t)) ==> greedy_or_pass(v, legal, r)
}

impl Strategy for SurvivorStrategy {
    open spec fn name_text(&self) -> Seq<char> {
        "Survivor"@
    }

    fn name(&self) -> (r: &'static str)
        ensures
            r@ == "Survivor"@,
    {
        "Survivor"
    }

    fn describe(&self) -> (r: StrategyDescription)
        ensures
            r.name@ == "Survivor"@,
            r.summary@ == "Attacks the current leader (bump > Sorry > 11-swap), Greedy otherwise."@,
            r.complexity == Complexity::Medium,
    {
        StrategyDescription {
            name: "Survivor".to_owned(),
            summary: "Attacks the current leader (bump > Sorry > 11-swap), Greedy otherwise.".to_owned(),
            complexity: Complexity::Medium,
        }
    }

    fn choose_card(&self, view: &StrategyView, rules: &StandardRules, rng: &mut GameRng) -> (r: usize)
        ensures
            r == 0,
    {
        0
    }

    open spec fn decide(&self, v: ViewModel, card: Card, legal: Seq<Move>, seed: u64, calls: Seq<RngCall>) -> (Move, Seq<RngCall>) {
        match leader_of(v) {
            Some(t) => attack_decide(v, legal, t, seed, calls),
            None => greedy_decide(v, legal, seed, calls),
        }
    }

    fn choose_move(&self, view: &StrategyView, rules: &StandardRules, card: Card, legal: &[Move], rng: &mut GameRng) -> (r: Move)
        ensures
            survivor_ok(view@, legal@, r),
    {
        let me = view.my_player;
        match leader(view, rules, me) {
            Some(t) => {
                let r = attack_pick(view, rules, legal, t, rng);
                proof {
                    assert(is_leader(view@, t));
                    let c = choose|p: PlayerId| is_leader(view@, p);
                    lemma_leader_unique(view@, c, t);
                    assert(leader_of(view@) == Some(t));
                    assert forall|t2: PlayerId| is_leader(view@, t2) implies attack_ok(view@, legal@, t2, r) by {
                        lemma_leader_unique(view@, t, t2);
                    }
                }
                r
            },
            None => {
                proof {
                    assert(leader_of(view@) is None) by {
                        if exists|p: PlayerId| is_leader(view@, p) {
                            let p = choose|p: PlayerId| is_leader(view@, p);
                            assert(p.0 < view.num_players && p != me);
                        }
                    }
                }
                greedy_pick(view, rules, legal, rng)
            },
        }
    }
}

} // verus!
