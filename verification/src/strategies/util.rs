//! Side-effect-free helpers shared by the strategies.

use crate::apply::move_slots_ok;
use crate::board::{PawnId, PlayerId, SpaceId, Space, board_shape_ok, occupies, slot_before};
use crate::card::{Card, spec_deck_count};
use crate::moves::{Move, SplitLeg};
use crate::rng::{RngCall, advanced, choose_item, chosen_index};
use crate::rules::{StandardRules, spec_classify, spec_forward, spec_home_id, spec_safety_id, spec_start_area_id};
use crate::strategy::{ViewModel, StrategyView, legal_ok, positions, view_ok};
use crate::rng::GameRng;
use vstd::prelude::*;

verus! {

/// Walk cap when counting steps to Home: unreachable pawns score this.
pub const STUCK_DISTANCE: u32 = 200;

/// Score of a pawn still in its Start area: beyond any reachable distance.
pub const START_DISTANCE: u32 = 100;

/// Steps still to walk from `cur` (already `steps - 1` steps from the
/// origin) until Home, capped at 200.
pub open spec fn dist_walk(cur: SpaceId, player: PlayerId, steps: int) -> u32
    decreases 201 - steps,
{
    if steps > 200 || steps < 1 {
        200
    } else {
        match spec_forward(cur, player) {
            None => 200,
            Some(n) => if n == spec_home_id(player) {
                steps as u32
            } else {
                dist_walk(n, player, steps + 1)
            },
        }
    }
}

/// Forward distance from `from` to `player`'s Home: 0 at Home, 100 in the
/// player's own Start area, 200 when Home is unreachable forward.
pub open spec fn spec_distance(from: SpaceId, player: PlayerId) -> u32 {
    if from == spec_home_id(player) {
        0
    } else if spec_classify(from) == Some(Space::StartArea(player)) {
        100
    } else {
        dist_walk(from, player, 1)
    }
}

proof fn lemma_dist_walk_bound(cur: SpaceId, player: PlayerId, steps: int)
    ensures
        dist_walk(cur, player, steps) <= 200,
    decreases 201 - steps,
{
    if !(steps > 200 || steps < 1) {
        match spec_forward(cur, player) {
            Some(n) => if n != spec_home_id(player) {
                lemma_dist_walk_bound(n, player, steps + 1);
            },
            None => {},
        }
    }
}

pub proof fn lemma_distance_bound(from: SpaceId, player: PlayerId)
    ensures
        spec_distance(from, player) <= 200,
{
    lemma_dist_walk_bound(from, player, 1);
}

pub fn distance_to_home(rules: &StandardRules, from: SpaceId, player: PlayerId) -> (r: u32)
    ensures
        r == spec_distance(from, player),
{
    let home = rules.home(player);
    if from == home {
        return 0;
    }
    match rules.classify(from) {
        Some(Space::StartArea(owner)) => {
            if owner == player {
                return START_DISTANCE;
            }
        },
        _ => {},
    }
    let mut cur = from;
    let mut steps: u32 = 1;
    while steps <= STUCK_DISTANCE
        invariant
            1 <= steps <= 201,
            home == spec_home_id(player),
            spec_distance(from, player) == dist_walk(cur, player, steps as int),
        decreases 201 - steps,
    {
        match rules.forward_neighbor(cur, player) {
            Some(next) => {
                if next == home {
                    return steps;
                }
                cur = next;
            },
            None => return STUCK_DISTANCE,
        }
        steps = steps + 1;
    }
    STUCK_DISTANCE
}

/// Sum of `f`-scores over the first `k` spaces of `row`.
pub open spec fn sum_distance(row: Seq<SpaceId>, player: PlayerId, k: int) -> int
    decreases k,
{
    if k <= 0 {
        0
    } else {
        sum_distance(row, player, k - 1) + spec_distance(row[k - 1], player) as int
    }
}

proof fn lemma_sum_distance_bound(row: Seq<SpaceId>, player: PlayerId, k: int)
    requires
        k >= 0,
    ensures
        0 <= sum_distance(row, player, k) <= 200 * k,
    decreases k,
{
    if k > 0 {
        lemma_sum_distance_bound(row, player, k - 1);
        lemma_distance_bound(row[k - 1], player);
    }
}

/// Total distance-to-home of `player`'s pawns on `b`.
pub open spec fn spec_total_distance(b: Seq<Seq<SpaceId>>, player: PlayerId) -> int {
    sum_distance(b[player.0 as int], player, b[player.0 as int].len() as int)
}

fn row_distance(rules: &StandardRules, row: &[SpaceId], player: PlayerId) -> (r: u64)
    requires
        row@.len() <= 255,
    ensures
        r as int == sum_distance(row@, player, row@.len() as int),
        r <= 51000,
{
    let mut total: u64 = 0;
    let mut i: usize = 0;
    while i < row.len()
        invariant
            row@.len() <= 255,
            i <= row@.len(),
            total as int == sum_distance(row@, player, i as int),
            total <= 200 * i,
        decreases row@.len() - i,
    {
        proof {
            lemma_distance_bound(row@[i as int], player);
        }
        total = total + distance_to_home(rules, row[i], player) as u64;
        i = i + 1;
    }
    total
}

/// Sum of `distance_to_home` over every pawn of `player` in the view.
pub fn total_distance(view: &StrategyView, rules: &StandardRules, player: PlayerId) -> (r: u32)
    requires
        board_shape_ok(positions(view)),
        (player.0 as int) < positions(view).len(),
    ensures
        r as int == spec_total_distance(positions(view), player),
{
    let row = view.pawn_positions[player.0 as usize].as_slice();
    assert(row@ == positions(view)[player.0 as int]);
    row_distance(rules, row, player) as u32
}

/// The first pawn, in (player, pawn) order, of someone other than `me` that
/// stands on `dest`.
pub fn bumps_opponent(view: &StrategyView, me: PlayerId, dest: SpaceId) -> (r: Option<(PlayerId, PawnId)>)
    requires
        board_shape_ok(positions(view)),
    ensures
        match r {
            Some(pp) => pp.0 != me && occupies(positions(view), pp, dest) && forall|q: PlayerId, j: PawnId|
                #![trigger occupies(positions(view), (q, j), dest)]
                q != me && slot_before((q, j), pp) ==> !occupies(positions(view), (q, j), dest),
            None => forall|q: PlayerId, j: PawnId|
                #![trigger occupies(positions(view), (q, j), dest)]
                q != me ==> !occupies(positions(view), (q, j), dest),
        },
{
    let ghost b = positions(view);
    let n = view.pawn_positions.len();
    let mut p: usize = 0;
    while p < n
        invariant
            n == b.len(),
            b == positions(view),
            board_shape_ok(b),
            p <= n,
            forall|q: PlayerId, j: PawnId|
                #![trigger occupies(b, (q, j), dest)]
                q != me && (q.0 as int) < p ==> !occupies(b, (q, j), dest),
        decreases n - p,
    {
        if p != me.0 as usize {
            let row = view.pawn_positions[p].as_slice();
            assert(row@ == b[p as int]);
            let m = row.len();
            let mut i: usize = 0;
            while i < m
                invariant
                    n == b.len(),
                    b == positions(view),
                    board_shape_ok(b),
                    p < n,
                    p != me.0 as int,
                    m == b[p as int].len(),
                    row@ == b[p as int],
                    i <= m,
                    forall|q: PlayerId, j: PawnId|
                        #![trigger occupies(b, (q, j), dest)]
                        q != me && (q.0 as int) < p ==> !occupies(b, (q, j), dest),
                    forall|q: PlayerId, j: PawnId|
                        #![trigger occupies(b, (q, j), dest)]
                        q.0 as int == p && (j.0 as int) < i ==> !occupies(b, (q, j), dest),
                decreases m - i,
            {
                if row[i] == dest {
                    let pp = (PlayerId(p as u8), PawnId(i as u8));
                    assert(occupies(b, pp, dest));
                    return Some(pp);
                }
                i = i + 1;
            }
        }
        p = p + 1;
    }
    None
}

/// Sentinel for a position the simulation leaves undetermined.
pub open spec fn sentinel() -> SpaceId {
    SpaceId(0xffff_ffffu32)
}

/// Every (owner, pawn, new position) effect of `mv` for mover `me`. Swap
/// endpoints are reported with the sentinel space.
pub open spec fn spec_own_destinations(mv: Move, me: PlayerId) -> Seq<(PlayerId, PawnId, SpaceId)> {
    match mv {
        Move::Advance { pawn, to, .. } => seq![(me, pawn, to)],
        Move::Retreat { pawn, to, .. } => seq![(me, pawn, to)],
        Move::StartPawn { pawn, to } => seq![(me, pawn, to)],
        Move::SplitSeven { first, second } => seq![(me, first.pawn, first.to), (me, second.pawn, second.to)],
        Move::SwapEleven { my_pawn, their_player, their_pawn } => seq![
            (me, my_pawn, sentinel()),
            (their_player, their_pawn, sentinel()),
        ],
        Move::Sorry { my_pawn, to, .. } => seq![(me, my_pawn, to)],
        Move::Pass => Seq::empty(),
    }
}

pub fn own_destinations(mv: &Move, me: PlayerId) -> (r: Vec<(PlayerId, PawnId, SpaceId)>)
    ensures
        r@ == spec_own_destinations(*mv, me),
{
    let mut out: Vec<(PlayerId, PawnId, SpaceId)> = Vec::new();
    match *mv {
        Move::Advance { pawn, to, .. } | Move::Retreat { pawn, to, .. } | Move::StartPawn { pawn, to } => {
            out.push((me, pawn, to));
        },
        Move::SplitSeven { first, second } => {
            out.push((me, first.pawn, first.to));
            out.push((me, second.pawn, second.to));
        },
        Move::SwapEleven { my_pawn, their_player, their_pawn } => {
            out.push((me, my_pawn, SpaceId(u32::MAX)));
            out.push((their_player, their_pawn, SpaceId(u32::MAX)));
        },
        Move::Sorry { my_pawn, to, .. } => {
            out.push((me, my_pawn, to));
        },
        Move::Pass => {},
    }
    assert(out@ =~= spec_own_destinations(*mv, me));
    out
}

/// Pawn positions after `mv`, by step-count destination (slides are not
/// followed). A Sorry victim is marked with the sentinel space.
pub open spec fn spec_simulate(b: Seq<Seq<SpaceId>>, me: PlayerId, mv: Move) -> Seq<Seq<SpaceId>> {
    let m = me.0 as int;
    match mv {
        Move::Advance { pawn, to, .. } => b.update(m, b[m].update(pawn.0 as int, to)),
        Move::Retreat { pawn, to, .. } => b.update(m, b[m].update(pawn.0 as int, to)),
        Move::StartPawn { pawn, to } => b.update(m, b[m].update(pawn.0 as int, to)),
        Move::SplitSeven { first, second } => {
            let b1 = b.update(m, b[m].update(first.pawn.0 as int, first.to));
            b1.update(m, b1[m].update(second.pawn.0 as int, second.to))
        },
        Move::SwapEleven { my_pawn, their_player, their_pawn } => {
            let t = their_player.0 as int;
            let mine = b[m][my_pawn.0 as int];
            let theirs = b[t][their_pawn.0 as int];
            let b1 = b.update(m, b[m].update(my_pawn.0 as int, theirs));
            b1.update(t, b1[t].update(their_pawn.0 as int, mine))
        },
        Move::Sorry { my_pawn, their_player, their_pawn, to } => {
            let t = their_player.0 as int;
            let b1 = b.update(m, b[m].update(my_pawn.0 as int, to));
            b1.update(t, b1[t].update(their_pawn.0 as int, sentinel()))
        },
        Move::Pass => b,
    }
}

fn set_cell(pos: &mut Vec<Vec<SpaceId>>, p: usize, i: usize, to: SpaceId)
    requires
        p < old(pos)@.len(),
        i < old(pos)@[p as int]@.len(),
    ensures
        final(pos)@.map_values(|row: Vec<SpaceId>| row@) == old(pos)@.map_values(|row: Vec<SpaceId>| row@).update(
            p as int,
            old(pos)@[p as int]@.update(i as int, to),
        ),
        final(pos)@.len() == old(pos)@.len(),
        forall|q: int| 0 <= q < old(pos)@.len() ==> (#[trigger] final(pos)@[q])@.len() == old(pos)@[q]@.len(),
{
    let mut row = pos[p].clone();
    assert(row@ =~= old(pos)@[p as int]@);
    row.set(i, to);
    pos.set(p, row);
    assert(pos@.map_values(|row: Vec<SpaceId>| row@) =~= old(pos)@.map_values(|row: Vec<SpaceId>| row@).update(
        p as int,
        old(pos)@[p as int]@.update(i as int, to),
    ));
}

fn copy_positions(view: &StrategyView) -> (r: Vec<Vec<SpaceId>>)
    ensures
        r@.map_values(|row: Vec<SpaceId>| row@) == positions(view),
        r@.len() == positions(view).len(),
        forall|q: int| 0 <= q < r@.len() ==> (#[trigger] r@[q])@ == positions(view)[q],
{
    let mut out: Vec<Vec<SpaceId>> = Vec::new();
    let mut p: usize = 0;
    while p < view.pawn_positions.len()
        invariant
            p <= view.pawn_positions@.len(),
            out@.len() == p,
            forall|q: int| 0 <= q < p ==> (#[trigger] out@[q])@ == view.pawn_positions@[q]@,
        decreases view.pawn_positions@.len() - p,
    {
        let row = view.pawn_positions[p].clone();
        assert(row@ =~= view.pawn_positions@[p as int]@);
        out.push(row);
        p = p + 1;
    }
    assert(out@.map_values(|row: Vec<SpaceId>| row@) =~= positions(view));
    out
}

/// All players' pawn positions after simulating `mv`.
pub fn simulate_positions(view: &StrategyView, me: PlayerId, mv: &Move) -> (r: Vec<Vec<SpaceId>>)
    requires
        (me.0 as int) < positions(view).len(),
        move_slots_ok(positions(view), me, *mv),
    ensures
        r@.map_values(|row: Vec<SpaceId>| row@) == spec_simulate(positions(view), me, *mv),
{
    let mut pos = copy_positions(view);
    let m = me.0 as usize;
    match *mv {
        Move::Advance { pawn, to, .. } | Move::Retreat { pawn, to, .. } | Move::StartPawn { pawn, to } => {
            set_cell(&mut pos, m, pawn.0 as usize, to);
        },
        Move::SplitSeven { first, second } => {
            set_cell(&mut pos, m, first.pawn.0 as usize, first.to);
            set_cell(&mut pos, m, second.pawn.0 as usize, second.to);
        },
        Move::SwapEleven { my_pawn, their_player, their_pawn } => {
            let my_pos = pos[m][my_pawn.0 as usize];
            let their_pos = pos[their_player.0 as usize][their_pawn.0 as usize];
            set_cell(&mut pos, m, my_pawn.0 as usize, their_pos);
            set_cell(&mut pos, their_player.0 as usize, their_pawn.0 as usize, my_pos);
        },
        Move::Sorry { my_pawn, their_player, their_pawn, to } => {
            set_cell(&mut pos, m, my_pawn.0 as usize, to);
            set_cell(&mut pos, their_player.0 as usize, their_pawn.0 as usize, SpaceId(u32::MAX));
        },
        Move::Pass => {},
    }
    pos
}

/// Distance score of a simulated space: the sentinel counts as Start.
pub open spec fn sim_score(s: SpaceId, player: PlayerId) -> u32 {
    if s == sentinel() {
        spec_distance(spec_start_area_id(player), player)
    } else {
        spec_distance(s, player)
    }
}

pub open spec fn sum_sim(row: Seq<SpaceId>, player: PlayerId, k: int) -> int
    decreases k,
{
    if k <= 0 {
        0
    } else {
        sum_sim(row, player, k - 1) + sim_score(row[k - 1], player) as int
    }
}

/// Total distance-to-home of `for_player` after `me` plays `mv`.
pub open spec fn spec_simulated_distance(b: Seq<Seq<SpaceId>>, me: PlayerId, mv: Move, for_player: PlayerId) -> int {
    let after = spec_simulate(b, me, mv);
    sum_sim(after[for_player.0 as int], for_player, after[for_player.0 as int].len() as int)
}

proof fn lemma_sum_sim_bound(row: Seq<SpaceId>, player: PlayerId, k: int)
    requires
        k >= 0,
    ensures
        0 <= sum_sim(row, player, k) <= 200 * k,
    decreases k,
{
    if k > 0 {
        lemma_sum_sim_bound(row, player, k - 1);
        lemma_distance_bound(row[k - 1], player);
        lemma_distance_bound(spec_start_area_id(player), player);
    }
}

proof fn lemma_simulate_shape(b: Seq<Seq<SpaceId>>, me: PlayerId, mv: Move)
    requires
        board_shape_ok(b),
        (me.0 as int) < b.len(),
        move_slots_ok(b, me, mv),
    ensures
        spec_simulate(b, me, mv).len() == b.len(),
        forall|p: int| 0 <= p < b.len() ==> #[trigger] spec_simulate(b, me, mv)[p].len() == b[p].len(),
{
}

/// `spec_simulated_distance`, computed.
pub fn simulated_distance(view: &StrategyView, rules: &StandardRules, me: PlayerId, mv: &Move, for_player: PlayerId) -> (r: u32)
    requires
        board_shape_ok(positions(view)),
        (me.0 as int) < positions(view).len(),
        (for_player.0 as int) < positions(view).len(),
        move_slots_ok(positions(view), me, *mv),
    ensures
        r as int == spec_simulated_distance(positions(view), me, *mv, for_player),
        r <= 51000,
{
    let after = simulate_positions(view, me, mv);
    proof {
        lemma_simulate_shape(positions(view), me, *mv);
    }
    let ghost sim = spec_simulate(positions(view), me, *mv);
    let start_area = rules.start_area(for_player);
    let row = &after[for_player.0 as usize];
    assert(row@ == sim[for_player.0 as int]);
    let mut total: u32 = 0;
    let mut i: usize = 0;
    while i < row.len()
        invariant
            row@ == sim[for_player.0 as int],
            row@.len() <= 255,
            start_area == spec_start_area_id(for_player),
            i <= row@.len(),
            total as int == sum_sim(row@, for_player, i as int),
            total <= 200 * i,
        decreases row@.len() - i,
    {
        proof {
            lemma_distance_bound(row@[i as int], for_player);
            lemma_distance_bound(start_area, for_player);
        }
        let s = row[i];
        let d = if s.0 == u32::MAX {
            distance_to_home(rules, start_area, for_player)
        } else {
            distance_to_home(rules, s, for_player)
        };
        total = total + d;
        i = i + 1;
    }
    total
}

/// Sum of every pawn's distance for seat `p`, on the un-simulated board.
pub open spec fn seat_total(b: Seq<Seq<SpaceId>>, p: int) -> int {
    sum_distance(b[p], PlayerId(p as u8), b[p].len() as int)
}

/// The opponent of `me` among seats `0..n` with the smallest total
/// distance-to-home (first such seat on ties), if any.
pub fn leader(view: &StrategyView, rules: &StandardRules, me: PlayerId) -> (r: Option<PlayerId>)
    requires
        board_shape_ok(positions(view)),
        view.num_players <= positions(view).len(),
    ensures
        match r {
            Some(p) => {
                &&& p != me
                &&& (p.0 as int) < view.num_players
                &&& forall|q: int|
                    #![trigger seat_total(positions(view), q)]
                    0 <= q < view.num_players && q != me.0 ==> seat_total(positions(view), p.0 as int) <= seat_total(
                        positions(view),
                        q,
                    )
                &&& forall|q: int|
                    #![trigger seat_total(positions(view), q)]
                    0 <= q < p.0 && q != me.0 ==> seat_total(positions(view), p.0 as int) < seat_total(
                        positions(view),
                        q,
                    )
            },
            None => view.num_players == 0 || (view.num_players == 1 && me.0 == 0),
        },
{
    let ghost b = positions(view);
    let mut best: Option<(PlayerId, u64)> = None;
    let mut p: usize = 0;
    while p < view.num_players
        invariant
            b == positions(view),
            board_shape_ok(b),
            view.num_players <= b.len(),
            p <= view.num_players,
            match best {
                Some(bp) => {
                    &&& bp.0 != me
                    &&& (bp.0.0 as int) < p
                    &&& bp.1 as int == seat_total(b, bp.0.0 as int)
                    &&& forall|q: int|
                        #![trigger seat_total(b, q)]
                        0 <= q < p && q != me.0 ==> seat_total(b, bp.0.0 as int) <= seat_total(b, q)
                    &&& forall|q: int|
                        #![trigger seat_total(b, q)]
                        0 <= q < bp.0.0 && q != me.0 ==> seat_total(b, bp.0.0 as int) < seat_total(b, q)
                },
                None => p == 0 || (p == 1 && me.0 == 0),
            },
        decreases view.num_players - p,
    {
        let pid = PlayerId(p as u8);
        if pid != me {
            let row = view.pawn_positions[p].as_slice();
            assert(row@ == b[p as int]);
            let sum = row_distance(rules, row, pid);
            assert(sum as int == seat_total(b, p as int));
            match best {
                None => {
                    best = Some((pid, sum));
                },
                Some((bp, prev)) => {
                    if sum < prev {
                        best = Some((pid, sum));
                    }
                },
            }
        }
        p = p + 1;
    }
    match best {
        Some((bp, _)) => Some(bp),
        None => None,
    }
}

/// The squares `mv` lands on, for bump detection. Swap endpoints read the
/// view.
pub open spec fn spec_landing_squares(mv: Move, b: Seq<Seq<SpaceId>>, me: PlayerId) -> Seq<SpaceId> {
    match mv {
        Move::Advance { to, .. } => seq![to],
        Move::Retreat { to, .. } => seq![to],
        Move::StartPawn { to, .. } => seq![to],
        Move::Sorry { to, .. } => seq![to],
        Move::SplitSeven { first, second } => seq![first.to, second.to],
        Move::SwapEleven { my_pawn, their_player, their_pawn } => seq![
            b[their_player.0 as int][their_pawn.0 as int],
            b[me.0 as int][my_pawn.0 as int],
        ],
        Move::Pass => Seq::empty(),
    }
}

pub fn landing_squares(mv: &Move, view: &StrategyView, me: PlayerId) -> (r: Vec<SpaceId>)
    requires
        (me.0 as int) < positions(view).len(),
        move_slots_ok(positions(view), me, *mv),
    ensures
        r@ == spec_landing_squares(*mv, positions(view), me),
{
    let mut out: Vec<SpaceId> = Vec::new();
    match *mv {
        Move::Advance { to, .. } | Move::Retreat { to, .. } | Move::StartPawn { to, .. } | Move::Sorry { to, .. } => {
            out.push(to);
        },
        Move::SplitSeven { first, second } => {
            out.push(first.to);
            out.push(second.to);
        },
        Move::SwapEleven { my_pawn, their_player, their_pawn } => {
            let my_pos = view.pawn_positions[me.0 as usize][my_pawn.0 as usize];
            let their_pos = view.pawn_positions[their_player.0 as usize][their_pawn.0 as usize];
            out.push(their_pos);
            out.push(my_pos);
        },
        Move::Pass => {},
    }
    assert(out@ =~= spec_landing_squares(*mv, positions(view), me));
    out
}

/// Some pawn other than `me`'s stands on `s`.
pub open spec fn opponent_on(b: Seq<Seq<SpaceId>>, me: PlayerId, s: SpaceId) -> bool {
    exists|q: PlayerId, j: PawnId| q != me && #[trigger] occupies(b, (q, j), s)
}

/// `mv` sends some pawn back to Start: a Sorry always does; a swap or a
/// pass never does; any other move does when it lands on an opponent.
pub open spec fn spec_is_bumping(mv: Move, b: Seq<Seq<SpaceId>>, me: PlayerId) -> bool {
    match mv {
        Move::Sorry { .. } => true,
        Move::SwapEleven { .. } => false,
        Move::Pass => false,
        _ => lands_on_opponent(mv, b, me),
    }
}

/// One of the squares `mv` lands on holds an opponent's pawn.
pub open spec fn lands_on_opponent(mv: Move, b: Seq<Seq<SpaceId>>, me: PlayerId) -> bool {
    exists|k: int|
        0 <= k < spec_landing_squares(mv, b, me).len() && opponent_on(
            b,
            me,
            #[trigger] spec_landing_squares(mv, b, me)[k],
        )
}

pub fn is_bumping(mv: &Move, view: &StrategyView, me: PlayerId) -> (r: bool)
    requires
        board_shape_ok(positions(view)),
        (me.0 as int) < positions(view).len(),
        move_slots_ok(positions(view), me, *mv),
    ensures
        r == spec_is_bumping(*mv, positions(view), me),
{
    match *mv {
        Move::Sorry { .. } => true,
        Move::SwapEleven { .. } => false,
        Move::Pass => false,
        _ => any_landing_on_opponent(mv, view, me),
    }
}

fn any_landing_on_opponent(mv: &Move, view: &StrategyView, me: PlayerId) -> (r: bool)
    requires
        board_shape_ok(positions(view)),
        (me.0 as int) < positions(view).len(),
        move_slots_ok(positions(view), me, *mv),
    ensures
        r == lands_on_opponent(*mv, positions(view), me),
{
    let squares = landing_squares(mv, view, me);
    let ghost b = positions(view);
    let mut k: usize = 0;
    while k < squares.len()
        invariant
            squares@ == spec_landing_squares(*mv, b, me),
            b == positions(view),
            board_shape_ok(b),
            k <= squares@.len(),
            forall|j: int| 0 <= j < k ==> !opponent_on(b, me, #[trigger] squares@[j]),
        decreases squares@.len() - k,
    {
        match bumps_opponent(view, me, squares[k]) {
            Some(pp) => {
                assert(occupies(b, (pp.0, pp.1), squares@[k as int]));
                assert(opponent_on(b, me, spec_landing_squares(*mv, b, me)[k as int]));
                return true;
            },
            None => {
                assert(!opponent_on(b, me, squares@[k as int]));
            },
        }
        k = k + 1;
    }
    false
}

/// The move's primary destination is `me`'s own safety zone or Home.
pub open spec fn heads_to_safety(mv: Move, me: PlayerId) -> bool {
    let dest_ok = |to: SpaceId|
        (spec_classify(to) matches Some(Space::Safety(owner, _)) && owner == me) || to == spec_home_id(me);
    match mv {
        Move::Advance { to, .. } => dest_ok(to),
        Move::StartPawn { to, .. } => dest_ok(to),
        Move::Sorry { to, .. } => dest_ok(to),
        _ => false,
    }
}

fn into_safety(rules: &StandardRules, mv: &Move, me: PlayerId) -> (r: bool)
    ensures
        r == heads_to_safety(*mv, me),
{
    let to = match *mv {
        Move::Advance { to, .. } | Move::StartPawn { to, .. } | Move::Sorry { to, .. } => to,
        _ => return false,
    };
    let in_safety = match rules.classify(to) {
        Some(Space::Safety(owner, _)) => owner == me,
        _ => false,
    };
    in_safety || to == rules.home(me)
}

/// Greedy choice: among `legal`, a move with the least total own
/// distance-to-home afterwards; among those, one heading into the safety
/// zone or Home whenever such a move exists; the rest is chance.
pub open spec fn greedy_score(v: ViewModel, m: Move) -> int {
    spec_simulated_distance(v.positions, v.my_player, m, v.my_player)
}

pub open spec fn greedy_choice_ok(v: ViewModel, legal: Seq<Move>, r: Move) -> bool {
    let me = v.my_player;
    let score = |m: Move| greedy_score(v, m);
    &&& legal.contains(r)
    &&& forall|i: int| 0 <= i < legal.len() ==> score(r) <= score(#[trigger] legal[i])
    &&& (exists|i: int|
        0 <= i < legal.len() && score(#[trigger] legal[i]) == score(r) && heads_to_safety(legal[i], me))
        ==> heads_to_safety(r, me)
}

/// Greedy pick over `legal`; Pass when `legal` is empty.
pub fn greedy_pick(view: &StrategyView, rules: &StandardRules, legal: &[Move], rng: &mut GameRng) -> (r: Move)
    requires
        view_ok(view),
        legal_ok(view, legal@),
    ensures
        legal@.len() == 0 ==> r == Move::Pass,
        legal@.len() > 0 ==> greedy_choice_ok(view@, legal@, r),
        r == greedy_decide(view@, legal@, old(rng).seed_model(), old(rng).calls_model()).0,
        advanced(*old(rng), *final(rng), greedy_decide(view@, legal@, old(rng).seed_model(), old(rng).calls_model()).1),
{
    if legal.len() == 0 {
        assert(rng.calls_model() =~= rng.calls_model() + Seq::<RngCall>::empty());
        return Move::Pass;
    }
    let me = view.my_player;
    let ghost b = positions(view);
    // Best distance over the whole set.
    let mut best: u32 = u32::MAX;
    let mut i: usize = 0;
    while i < legal.len()
        invariant
            view_ok(view),
            legal_ok(view, legal@),
            b == positions(view),
            me == view.my_player,
            i <= legal@.len(),
            legal@.len() > 0,
            forall|k: int| 0 <= k < i ==> best as int <= greedy_score(view@, #[trigger] legal@[k]),
            i > 0 ==> exists|k: int| 0 <= k < i && best as int == greedy_score(view@, #[trigger] legal@[k]),
            i == 0 ==> best == u32::MAX,
        decreases legal@.len() - i,
    {
        let d = simulated_distance(view, rules, me, &legal[i], me);
        if d < best {
            best = d;
            assert(best as int == greedy_score(view@, legal@[i as int]));
        }
        i = i + 1;
    }
    // Does some best move head into safety?
    let mut any_safety = false;
    let mut i: usize = 0;
    while i < legal.len()
        invariant
            view_ok(view),
            legal_ok(view, legal@),
            b == positions(view),
            me == view.my_player,
            i <= legal@.len(),
            any_safety == exists|k: int|
                0 <= k < i && greedy_score(view@, #[trigger] legal@[k]) == best as int && heads_to_safety(legal@[k], me),
        decreases legal@.len() - i,
    {
        let d = simulated_distance(view, rules, me, &legal[i], me);
        if d == best && into_safety(rules, &legal[i], me) {
            any_safety = true;
        }
        i = i + 1;
    }
    // Candidates: best moves, restricted to safety-bound ones if any.
    let ghost pred = |m: Move| greedy_score(view@, m) == best as int && (!any_safety || heads_to_safety(m, me));
    let mut tier: Vec<Move> = Vec::new();
    let mut i: usize = 0;
    while i < legal.len()
        invariant
            view_ok(view),
            legal_ok(view, legal@),
            b == positions(view),
            me == view.my_player,
            i <= legal@.len(),
            pred == (|m: Move| greedy_score(view@, m) == best as int && (!any_safety || heads_to_safety(m, me))),
            tier@ == legal@.take(i as int).filter(pred),
        decreases legal@.len() - i,
    {
        let m = legal[i];
        let d = simulated_distance(view, rules, me, &m, me);
        proof {
            lemma_filter_take(legal@, pred, i as int);
        }
        if d == best && (!any_safety || into_safety(rules, &m, me)) {
            tier.push(m);
        }
        i = i + 1;
    }
    proof {
        assert(legal@.take(legal@.len() as int) =~= legal@);
        let ok = |m: Move| greedy_choice_ok(view@, legal@, m);
        assert forall|i: int| 0 <= i < legal@.len() implies pred(#[trigger] legal@[i]) == ok(legal@[i]) by {
            let m = legal@[i];
            assert(best as int <= greedy_score(view@, m));
            let k0 = choose|k: int| 0 <= k < legal@.len() && best as int == greedy_score(view@, #[trigger] legal@[k]);
            if ok(m) {
                assert(greedy_score(view@, m) <= greedy_score(view@, legal@[k0]));
                if any_safety {
                    let j = choose|j: int|
                        0 <= j < legal@.len() && greedy_score(view@, #[trigger] legal@[j]) == best as int && heads_to_safety(
                            legal@[j],
                            me,
                        );
                    assert(greedy_score(view@, legal@[j]) == greedy_score(view@, m));
                }
            }
            if pred(m) {
                assert(legal@.contains(m));
                assert forall|j: int| 0 <= j < legal@.len() implies greedy_score(view@, m) <= greedy_score(
                    view@,
                    #[trigger] legal@[j],
                ) by {}
            }
        }
        lemma_filter_same(legal@, pred, ok);
        assert(tier@ == greedy_tier(view@, legal@));
        let k0 = choose|k: int| 0 <= k < legal@.len() && best as int == greedy_score(view@, #[trigger] legal@[k]);
        if !any_safety {
            lemma_filter_nonempty(legal@, pred, k0);
        } else {
            let j = choose|j: int|
                0 <= j < legal@.len() && greedy_score(view@, #[trigger] legal@[j]) == best as int && heads_to_safety(
                    legal@[j],
                    me,
                );
            lemma_filter_nonempty(legal@, pred, j);
        }
        lemma_filter_members(legal@, ok);
    }
    let ghost before = *rng;
    let r = match choose_item(tier.as_slice(), rng) {
        Some(m) => *m,
        None => {
            proof {
                assert(false);
            }
            Move::Pass
        },
    };
    proof {
        let k = chosen_index(before.seed_model(), before.calls_model(), tier@.len());
        assert(tier@[k] == r);
        assert(greedy_choice_ok(view@, legal@, tier@[k]));
        assert(rng.calls_model() =~= before.calls_model() + seq![RngCall::Choose(tier@.len() as usize)]);
    }
    r
}

/// Copies of `card` not yet discarded: the standard deck's count minus the
/// discarded ones, floored at 0.
pub open spec fn spec_remaining(discard: Seq<Card>, card: Card) -> int {
    let d = discard.to_multiset().count(card) as int;
    if spec_deck_count(card) as int >= d {
        spec_deck_count(card) as int - d
    } else {
        0
    }
}

pub fn remaining_count(view: &StrategyView, rules: &StandardRules, card: Card) -> (r: u32)
    requires
        view.discard@.len() <= u32::MAX,
    ensures
        r as int == spec_remaining(view.discard@, card),
{
    let deck = rules.build_deck();
    proof {
        crate::card::lemma_standard_deck_distribution(card);
    }
    let total = count_card(&deck, card);
    let discarded = count_card(&view.discard, card);
    if total >= discarded {
        total - discarded
    } else {
        0
    }
}

fn count_card(cards: &Vec<Card>, card: Card) -> (r: u32)
    requires
        cards@.len() <= u32::MAX,
    ensures
        r as int == cards@.to_multiset().count(card),
{
    let mut n: u32 = 0;
    let mut i: usize = 0;
    proof {
        assert(cards@.subrange(0, 0) =~= Seq::<Card>::empty());
        broadcast use vstd::multiset::group_multiset_axioms;
        Seq::<Card>::empty().to_multiset_ensures();
    }
    while i < cards.len()
        invariant
            cards@.len() <= u32::MAX,
            i <= cards@.len(),
            n as int == cards@.subrange(0, i as int).to_multiset().count(card),
            n <= i,
        decreases cards@.len() - i,
    {
        proof {
            let s = cards@.subrange(0, i as int);
            assert(cards@.subrange(0, i as int + 1) =~= s.push(cards@[i as int]));
            s.to_multiset_ensures();
        }
        if cards[i] == card {
            n = n + 1;
        }
        i = i + 1;
    }
    assert(cards@.subrange(0, cards@.len() as int) =~= cards@);
    n
}

/// The move `choose_item` takes from a non-empty `tier` on a generator
/// seeded with `seed` and used as `calls`, with the use it records.
pub open spec fn pick_from(tier: Seq<Move>, seed: u64, calls: Seq<RngCall>) -> (Move, Seq<RngCall>) {
    (tier[chosen_index(seed, calls, tier.len())], seq![RngCall::Choose(tier.len() as usize)])
}

/// One of a non-empty candidate list.
pub(crate) fn pick(cands: &Vec<Move>, rng: &mut GameRng) -> (r: Move)
    requires
        cands@.len() > 0,
    ensures
        cands@.contains(r),
        r == pick_from(cands@, old(rng).seed_model(), old(rng).calls_model()).0,
        advanced(*old(rng), *final(rng), pick_from(cands@, old(rng).seed_model(), old(rng).calls_model()).1),
{
    let ghost before = *rng;
    let r = match choose_item(cands.as_slice(), rng) {
        Some(m) => *m,
        None => cands[0],
    };
    assert(rng.calls_model() =~= before.calls_model() + seq![RngCall::Choose(cands@.len() as usize)]);
    r
}

/// Greedy's candidates: the moves of `legal` it may pick.
pub open spec fn greedy_tier(v: ViewModel, legal: Seq<Move>) -> Seq<Move> {
    legal.filter(|m: Move| greedy_choice_ok(v, legal, m))
}

/// Greedy's pick over `legal` and its use of the generator: Pass, and no
/// use, when `legal` is empty.
pub open spec fn greedy_decide(v: ViewModel, legal: Seq<Move>, seed: u64, calls: Seq<RngCall>) -> (Move, Seq<RngCall>) {
    if legal.len() == 0 {
        (Move::Pass, Seq::empty())
    } else {
        pick_from(greedy_tier(v, legal), seed, calls)
    }
}

/// One more element of `s` filtered.
pub proof fn lemma_filter_take(s: Seq<Move>, p: spec_fn(Move) -> bool, i: int)
    requires
        0 <= i < s.len(),
    ensures
        s.take(i + 1).filter(p) == if p(s[i]) {
            s.take(i).filter(p).push(s[i])
        } else {
            s.take(i).filter(p)
        },
{
    reveal(Seq::filter);
    assert(s.take(i + 1).drop_last() =~= s.take(i));
    assert(s.take(i + 1).last() == s[i]);
}

/// Filters by predicates that agree on every element of `s` are equal.
pub proof fn lemma_filter_same(s: Seq<Move>, p: spec_fn(Move) -> bool, q: spec_fn(Move) -> bool)
    requires
        forall|i: int| 0 <= i < s.len() ==> p(#[trigger] s[i]) == q(s[i]),
    ensures
        s.filter(p) == s.filter(q),
    decreases s.len(),
{
    reveal(Seq::filter);
    if s.len() > 0 {
        let t = s.drop_last();
        assert forall|i: int| 0 <= i < t.len() implies p(#[trigger] t[i]) == q(t[i]) by {
            assert(t[i] == s[i]);
        }
        lemma_filter_same(t, p, q);
        assert(p(s.last()) == q(s[s.len() - 1]));
    }
}

/// A filter holds an element when `s` has one that passes it.
pub proof fn lemma_filter_nonempty(s: Seq<Move>, p: spec_fn(Move) -> bool, i: int)
    requires
        0 <= i < s.len(),
        p(s[i]),
    ensures
        s.filter(p).len() > 0,
        s.filter(p).contains(s[i]),
{
    s.lemma_filter_contains(p, i);
}

/// Every element of a filter is an element of `s` that passes it.
pub proof fn lemma_filter_members(s: Seq<Move>, p: spec_fn(Move) -> bool)
    ensures
        forall|k: int| 0 <= k < s.filter(p).len() ==> p(#[trigger] s.filter(p)[k]) && s.contains(s.filter(p)[k]),
{
    assert forall|k: int| 0 <= k < s.filter(p).len() implies p(#[trigger] s.filter(p)[k]) && s.contains(s.filter(p)[k]) by {
        s.lemma_filter_pred(p, k);
        s.lemma_filter_contains_rev(p, s.filter(p)[k]);
    }
}

/// Greedy's choice among the moves of `legal` that satisfy `allowed`.
pub open spec fn greedy_among(v: ViewModel, legal: Seq<Move>, allowed: spec_fn(Move) -> bool, r: Move) -> bool {
    let me = v.my_player;
    &&& legal.contains(r)
    &&& allowed(r)
    &&& forall|i: int| 0 <= i < legal.len() && allowed(#[trigger] legal[i]) ==> greedy_score(v, r) <= greedy_score(v, legal[i])
    &&& (exists|i: int|
        0 <= i < legal.len() && allowed(#[trigger] legal[i]) && greedy_score(v, legal[i]) == greedy_score(v, r)
            && heads_to_safety(legal[i], me)) ==> heads_to_safety(r, me)
}

/// Greedy's choice over all of `legal`, or Pass when there is none.
pub open spec fn greedy_or_pass(v: ViewModel, legal: Seq<Move>, r: Move) -> bool {
    &&& legal.len() == 0 ==> r == Move::Pass
    &&& legal.len() > 0 ==> greedy_choice_ok(v, legal, r)
}

/// Greedy over the sub-list `sub` of `legal` holding exactly the moves that
/// satisfy `allowed` is greedy among those moves of `legal`.
pub proof fn lemma_greedy_on_filter(v: ViewModel, legal: Seq<Move>, sub: Seq<Move>, allowed: spec_fn(Move) -> bool, r: Move)
    requires
        greedy_choice_ok(v, sub, r),
        forall|k: int| 0 <= k < sub.len() ==> legal.contains(#[trigger] sub[k]) && allowed(sub[k]),
        forall|i: int| 0 <= i < legal.len() && allowed(#[trigger] legal[i]) ==> sub.contains(legal[i]),
    ensures
        greedy_among(v, legal, allowed, r),
{
    let me = v.my_player;
    let k0 = choose|k: int| 0 <= k < sub.len() && sub[k] == r;
    assert(allowed(sub[k0]));
    assert forall|i: int| 0 <= i < legal.len() && allowed(#[trigger] legal[i]) implies greedy_score(v, r) <= greedy_score(
        v,
        legal[i],
    ) by {
        let k = choose|k: int| 0 <= k < sub.len() && sub[k] == legal[i];
        assert(greedy_score(v, r) <= greedy_score(v, sub[k]));
    }
    if exists|i: int|
        0 <= i < legal.len() && allowed(#[trigger] legal[i]) && greedy_score(v, legal[i]) == greedy_score(v, r)
            && heads_to_safety(legal[i], me) {
        let i = choose|i: int|
            0 <= i < legal.len() && allowed(#[trigger] legal[i]) && greedy_score(v, legal[i]) == greedy_score(v, r)
                && heads_to_safety(legal[i], me);
        let k = choose|k: int| 0 <= k < sub.len() && sub[k] == legal[i];
        assert(greedy_score(v, sub[k]) == greedy_score(v, r) && heads_to_safety(sub[k], me));
    }
}

/// The moves of `legal` that satisfy `allowed`, in order.
pub(crate) fn filter_moves(legal: &[Move], Ghost(allowed): Ghost<spec_fn(Move) -> bool>, keep: &Vec<bool>) -> (r: Vec<Move>)
    requires
        keep@.len() == legal@.len(),
        forall|i: int| 0 <= i < legal@.len() ==> keep@[i] == allowed(#[trigger] legal@[i]),
    ensures
        r@ == legal@.filter(allowed),
        forall|k: int| 0 <= k < r@.len() ==> legal@.contains(#[trigger] r@[k]) && allowed(r@[k]),
        forall|i: int| 0 <= i < legal@.len() && allowed(#[trigger] legal@[i]) ==> r@.contains(legal@[i]),
{
    let mut out: Vec<Move> = Vec::new();
    let mut i: usize = 0;
    while i < legal.len()
        invariant
            keep@.len() == legal@.len(),
            forall|i: int| 0 <= i < legal@.len() ==> keep@[i] == allowed(#[trigger] legal@[i]),
            i <= legal@.len(),
            out@ == legal@.take(i as int).filter(allowed),
        decreases legal@.len() - i,
    {
        proof {
            lemma_filter_take(legal@, allowed, i as int);
        }
        if keep[i] {
            out.push(legal[i]);
        }
        i = i + 1;
    }
    proof {
        assert(legal@.take(legal@.len() as int) =~= legal@);
        lemma_filter_members(legal@, allowed);
        assert forall|i: int| 0 <= i < legal@.len() && allowed(#[trigger] legal@[i]) implies out@.contains(legal@[i]) by {
            lemma_filter_nonempty(legal@, allowed, i);
        }
    }
    out
}

/// The move lands on one of `me`'s own Safety spaces or on `me`'s Home.
pub open spec fn lands_in_safety(m: Move, me: PlayerId) -> bool {
    let safe = |to: SpaceId| (exists|slot: u8| slot < 5 && to == #[trigger] spec_safety_id(me, slot)) || to == spec_home_id(me);
    match m {
        Move::Advance { to, .. } => safe(to),
        Move::StartPawn { to, .. } => safe(to),
        Move::Sorry { to, .. } => safe(to),
        _ => false,
    }
}

/// Greedy prefers the safety zone: when one of the best-scored legal moves
/// lands in the mover's own Safety zone or Home, Greedy's pick lands there
/// too.
pub proof fn lemma_greedy_prefers_safety(v: ViewModel, legal: Seq<Move>, r: Move, i: int)
    requires
        v.my_player.0 < 4,
        greedy_choice_ok(v, legal, r),
        0 <= i < legal.len(),
        forall|j: int| 0 <= j < legal.len() ==> greedy_score(v, legal[i]) <= greedy_score(v, #[trigger] legal[j]),
        lands_in_safety(legal[i], v.my_player),
    ensures
        lands_in_safety(r, v.my_player),
{
    let me = v.my_player;
    let k = choose|k: int| 0 <= k < legal.len() && legal[k] == r;
    assert(greedy_score(v, r) <= greedy_score(v, legal[i]));
    assert(greedy_score(v, legal[i]) <= greedy_score(v, legal[k]));
    assert(heads_to_safety(legal[i], me)) by {
        match legal[i] {
            Move::Advance { to, .. } | Move::StartPawn { to, .. } | Move::Sorry { to, .. } => {
                if to != spec_home_id(me) {
                    let slot = choose|slot: u8| slot < 5 && to == #[trigger] spec_safety_id(me, slot);
                    let x = 64 + me.0 * 5 + slot;
                    assert((x - 64) / 5 == me.0 as int && (x - 64) % 5 == slot as int) by (nonlinear_arith)
                        requires
                            x == 64 + me.0 * 5 + slot,
                            slot < 5,
                    ;
                }
            },
            _ => {},
        }
    }
    assert(heads_to_safety(r, me));
    match r {
        Move::Advance { to, .. } | Move::StartPawn { to, .. } | Move::Sorry { to, .. } => {
            if to != spec_home_id(me) {
                let slot = ((to.0 - 64) % 5) as u8;
                let owner = ((to.0 - 64) / 5) as int;
                assert(64 <= to.0 < 84);
                assert(owner == me.0);
                assert(to.0 == 64 + owner * 5 + (to.0 - 64) % 5) by (nonlinear_arith)
                    requires
                        owner == (to.0 - 64) / 5,
                        64 <= to.0,
                ;
                assert(to == spec_safety_id(me, slot));
            }
        },
        _ => {},
    }
}

} // verus!
