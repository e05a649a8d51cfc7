//! Applying a move to the board: landing bumps, slides and their bumps.

use crate::board::{BoardState, PawnId, PlayerId, SpaceId, board_set, board_shape_ok};
use crate::moves::{Move, SplitLeg};
use crate::rules::{StandardRules, spec_slide, spec_start_area_id};
use vstd::prelude::*;

verus! {

/// A pawn sent back to its owner's Start area.
#[derive(Debug, Clone, Copy, PartialEq, Eq, Structural)]
pub struct BumpEvent {
    pub player: PlayerId,
    pub pawn: PawnId,
    pub from: SpaceId,
    pub to: SpaceId,
}

/// A pawn that slid from a slide head to its end, passing `path`.
#[derive(Debug, Clone, PartialEq, Eq)]
pub struct SlideEvent {
    pub player: PlayerId,
    pub pawn: PawnId,
    pub from: SpaceId,
    pub to: SpaceId,
    pub path: Vec<SpaceId>,
}

/// Mathematical value of a `SlideEvent`.
pub struct SlideRecord {
    pub player: PlayerId,
    pub pawn: PawnId,
    pub from: SpaceId,
    pub to: SpaceId,
    pub path: Seq<SpaceId>,
}

impl View for SlideEvent {
    type V = SlideRecord;

    open spec fn view(&self) -> SlideRecord {
        SlideRecord { player: self.player, pawn: self.pawn, from: self.from, to: self.to, path: self.path@ }
    }
}

pub open spec fn slides_view(v: Seq<SlideEvent>) -> Seq<SlideRecord> {
    v.map_values(|e: SlideEvent| e@)
}

// ─── Specification ──────────────────────────────────────────────────────

/// Pawn `(p, i)` is exempt from a bump: the whole seat of `player` when
/// `whole`, else only `player`'s pawn `pawn`.
pub open spec fn exempt(p: int, i: int, player: PlayerId, pawn: int, whole: bool) -> bool {
    p == player.0 as int && (whole || i == pawn)
}

/// Pawn `(p, i)` of board `b` stands on `target` and is not exempt.
pub open spec fn is_hit(b: Seq<Seq<SpaceId>>, target: SpaceId, player: PlayerId, pawn: int, whole: bool, p: int, i: int) -> bool {
    b[p][i] == target && !exempt(p, i, player, pawn, whole)
}

pub open spec fn start_of(p: int) -> SpaceId {
    spec_start_area_id(PlayerId(p as u8))
}

/// `b` with every hit pawn on `target` sent to its Start area.
pub open spec fn bumped_board(b: Seq<Seq<SpaceId>>, target: SpaceId, player: PlayerId, pawn: int, whole: bool) -> Seq<Seq<SpaceId>> {
    Seq::new(
        b.len(),
        |p: int|
            Seq::new(
                b[p].len(),
                |i: int|
                    if is_hit(b, target, player, pawn, whole, p, i) {
                        start_of(p)
                    } else {
                        b[p][i]
                    },
            ),
    )
}

pub open spec fn bump_event(p: int, i: int, target: SpaceId) -> BumpEvent {
    BumpEvent { player: PlayerId(p as u8), pawn: PawnId(i as u8), from: target, to: start_of(p) }
}

pub open spec fn row_bumps(b: Seq<Seq<SpaceId>>, target: SpaceId, player: PlayerId, pawn: int, whole: bool, p: int, k: int) -> Seq<BumpEvent>
    decreases k,
{
    if k <= 0 {
        Seq::empty()
    } else {
        row_bumps(b, target, player, pawn, whole, p, k - 1) + if is_hit(b, target, player, pawn, whole, p, k - 1) {
            seq![bump_event(p, k - 1, target)]
        } else {
            Seq::empty()
        }
    }
}

/// Bump events of the hit pawns on `target` in seats `0..n`, in
/// (player, pawn) order.
pub open spec fn space_bumps(b: Seq<Seq<SpaceId>>, target: SpaceId, player: PlayerId, pawn: int, whole: bool, n: int) -> Seq<BumpEvent>
    decreases n,
{
    if n <= 0 {
        Seq::empty()
    } else {
        space_bumps(b, target, player, pawn, whole, n - 1) + row_bumps(
            b,
            target,
            player,
            pawn,
            whole,
            n - 1,
            b[n - 1].len() as int,
        )
    }
}

/// The board after bumping every other pawn on the first `k` spaces of a
/// slide path, space by space.
pub open spec fn slide_board(b: Seq<Seq<SpaceId>>, path: Seq<SpaceId>, player: PlayerId, pawn: int, k: int) -> Seq<Seq<SpaceId>>
    decreases k,
{
    if k <= 0 {
        b
    } else {
        let prev = slide_board(b, path, player, pawn, k - 1);
        bumped_board(prev, path[k - 1], player, pawn, false)
    }
}

pub open spec fn slide_bumps(b: Seq<Seq<SpaceId>>, path: Seq<SpaceId>, player: PlayerId, pawn: int, k: int) -> Seq<BumpEvent>
    decreases k,
{
    if k <= 0 {
        Seq::empty()
    } else {
        let prev = slide_board(b, path, player, pawn, k - 1);
        slide_bumps(b, path, player, pawn, k - 1) + space_bumps(prev, path[k - 1], player, pawn, false, prev.len() as int)
    }
}

/// Moving `player`'s pawn `pawn` to `to`: opponents already on `to` are
/// bumped (when `bump_dest`), the pawn is placed, and a slide at `to`
/// carries it to the slide's end, bumping every other pawn on the path.
pub open spec fn spec_move_pawn(b: Seq<Seq<SpaceId>>, player: PlayerId, pawn: int, to: SpaceId, bump_dest: bool) -> (Seq<Seq<SpaceId>>, Seq<BumpEvent>, Seq<SlideRecord>) {
    let b1 = if bump_dest {
        bumped_board(b, to, player, pawn, true)
    } else {
        b
    };
    let e1 = if bump_dest {
        space_bumps(b, to, player, pawn, true, b.len() as int)
    } else {
        Seq::empty()
    };
    let b2 = board_set(b1, player.0 as int, pawn, to);
    match spec_slide(to, player) {
        None => (b2, e1, Seq::empty()),
        Some((end, path)) => {
            let b3 = slide_board(b2, path, player, pawn, path.len() as int);
            let e2 = slide_bumps(b2, path, player, pawn, path.len() as int);
            (
                board_set(b3, player.0 as int, pawn, end),
                e1 + e2,
                seq![SlideRecord { player, pawn: PawnId(pawn as u8), from: to, to: end, path }],
            )
        },
    }
}

/// The board, bump events and slide events produced by `player` playing `mv`.
pub open spec fn spec_apply_move(b: Seq<Seq<SpaceId>>, player: PlayerId, mv: Move) -> (Seq<Seq<SpaceId>>, Seq<BumpEvent>, Seq<SlideRecord>) {
    match mv {
        Move::Pass => (b, Seq::empty(), Seq::empty()),
        Move::Advance { pawn, to, .. } => spec_move_pawn(b, player, pawn.0 as int, to, true),
        Move::Retreat { pawn, to, .. } => spec_move_pawn(b, player, pawn.0 as int, to, true),
        Move::StartPawn { pawn, to } => spec_move_pawn(b, player, pawn.0 as int, to, true),
        Move::SplitSeven { first, second } => {
            let r1 = spec_move_pawn(b, player, first.pawn.0 as int, first.to, true);
            let r2 = spec_move_pawn(r1.0, player, second.pawn.0 as int, second.to, true);
            (r2.0, r1.1 + r2.1, r1.2 + r2.2)
        },
        Move::SwapEleven { my_pawn, their_player, their_pawn } => {
            let mine = b[player.0 as int][my_pawn.0 as int];
            let theirs = b[their_player.0 as int][their_pawn.0 as int];
            let b1 = board_set(b, player.0 as int, my_pawn.0 as int, theirs);
            (board_set(b1, their_player.0 as int, their_pawn.0 as int, mine), Seq::empty(), Seq::empty())
        },
        Move::Sorry { my_pawn, their_player, their_pawn, to } => {
            let their_from = b[their_player.0 as int][their_pawn.0 as int];
            let their_start = spec_start_area_id(their_player);
            let b1 = board_set(b, their_player.0 as int, their_pawn.0 as int, their_start);
            let ev = BumpEvent { player: their_player, pawn: their_pawn, from: their_from, to: their_start };
            let r = spec_move_pawn(b1, player, my_pawn.0 as int, to, false);
            (r.0, seq![ev] + r.1, r.2)
        },
    }
}

/// Every pawn slot `mv` names exists on board `b`.
pub open spec fn move_slots_ok(b: Seq<Seq<SpaceId>>, player: PlayerId, mv: Move) -> bool {
    let row = b[player.0 as int].len();
    match mv {
        Move::Pass => true,
        Move::Advance { pawn, .. } => (pawn.0 as int) < row,
        Move::Retreat { pawn, .. } => (pawn.0 as int) < row,
        Move::StartPawn { pawn, .. } => (pawn.0 as int) < row,
        Move::SplitSeven { first, second } => (first.pawn.0 as int) < row && (second.pawn.0 as int) < row,
        Move::SwapEleven { my_pawn, their_player, their_pawn } => (my_pawn.0 as int) < row && (
        their_player.0 as int) < b.len() && (their_pawn.0 as int) < b[their_player.0 as int].len(),
        Move::Sorry { my_pawn, their_player, their_pawn, .. } => (my_pawn.0 as int) < row && (
        their_player.0 as int) < b.len() && (their_pawn.0 as int) < b[their_player.0 as int].len(),
    }
}

pub open spec fn apply_ok(b: Seq<Seq<SpaceId>>, player: PlayerId, mv: Move) -> bool {
    &&& board_shape_ok(b)
    &&& (player.0 as int) < b.len()
    &&& move_slots_ok(b, player, mv)
}

/// Same shape: as many seats, each with as many pawns.
pub open spec fn same_shape(a: Seq<Seq<SpaceId>>, c: Seq<Seq<SpaceId>>) -> bool {
    a.len() == c.len() && forall|p: int| 0 <= p < a.len() ==> #[trigger] a[p].len() == c[p].len()
}

// ─── Executable application ─────────────────────────────────────────────

/// `b` with the hits among seats `< p`, and pawns `< i` of seat `p`, bumped.
spec fn partial_bumped(b: Seq<Seq<SpaceId>>, target: SpaceId, player: PlayerId, pawn: int, whole: bool, p: int, i: int) -> Seq<Seq<SpaceId>> {
    Seq::new(
        b.len(),
        |q: int|
            Seq::new(
                b[q].len(),
                |j: int|
                    if (q < p || (q == p && j < i)) && is_hit(b, target, player, pawn, whole, q, j) {
                        start_of(q)
                    } else {
                        b[q][j]
                    },
            ),
    )
}

proof fn lemma_set_shape(b: Seq<Seq<SpaceId>>, p: int, i: int, to: SpaceId)
    requires
        0 <= p < b.len(),
        0 <= i < b[p].len(),
    ensures
        same_shape(b, board_set(b, p, i, to)),
        board_shape_ok(b) ==> board_shape_ok(board_set(b, p, i, to)),
{
    assert forall|q: int| 0 <= q < b.len() implies #[trigger] b[q].len() == board_set(b, p, i, to)[q].len() by {
        if q == p {
        }
    }
}

proof fn lemma_bumped_shape(b: Seq<Seq<SpaceId>>, target: SpaceId, player: PlayerId, pawn: int, whole: bool)
    ensures
        same_shape(b, bumped_board(b, target, player, pawn, whole)),
        board_shape_ok(b) ==> board_shape_ok(bumped_board(b, target, player, pawn, whole)),
{
}

/// Every event of `s` names a seat below `n`.
pub open spec fn events_name_seats(s: Seq<BumpEvent>, n: int) -> bool {
    forall|k: int| 0 <= k < s.len() ==> (#[trigger] s[k]).player.0 < n
}

proof fn lemma_seats_concat(a: Seq<BumpEvent>, c: Seq<BumpEvent>, n: int)
    requires
        events_name_seats(a, n),
        events_name_seats(c, n),
    ensures
        events_name_seats(a + c, n),
{
    assert forall|k: int| 0 <= k < (a + c).len() implies (#[trigger] (a + c)[k]).player.0 < n by {
        if k < a.len() {
            assert((a + c)[k] == a[k]);
        } else {
            assert((a + c)[k] == c[k - a.len()]);
        }
    }
}

proof fn lemma_row_bumps_seats(b: Seq<Seq<SpaceId>>, target: SpaceId, player: PlayerId, pawn: int, whole: bool, p: int, k: int)
    requires
        0 <= p < b.len() <= 255,
    ensures
        events_name_seats(row_bumps(b, target, player, pawn, whole, p, k), b.len() as int),
    decreases k,
{
    if k > 0 {
        lemma_row_bumps_seats(b, target, player, pawn, whole, p, k - 1);
        let tail = if is_hit(b, target, player, pawn, whole, p, k - 1) {
            seq![bump_event(p, k - 1, target)]
        } else {
            Seq::empty()
        };
        assert(PlayerId(p as u8).0 == p);
        lemma_seats_concat(row_bumps(b, target, player, pawn, whole, p, k - 1), tail, b.len() as int);
    }
}

proof fn lemma_space_bumps_seats(b: Seq<Seq<SpaceId>>, target: SpaceId, player: PlayerId, pawn: int, whole: bool, m: int)
    requires
        m <= b.len() <= 255,
    ensures
        events_name_seats(space_bumps(b, target, player, pawn, whole, m), b.len() as int),
    decreases m,
{
    if m > 0 {
        lemma_space_bumps_seats(b, target, player, pawn, whole, m - 1);
        lemma_row_bumps_seats(b, target, player, pawn, whole, m - 1, b[m - 1].len() as int);
        lemma_seats_concat(
            space_bumps(b, target, player, pawn, whole, m - 1),
            row_bumps(b, target, player, pawn, whole, m - 1, b[m - 1].len() as int),
            b.len() as int,
        );
    }
}

proof fn lemma_slide_bumps_seats(b: Seq<Seq<SpaceId>>, path: Seq<SpaceId>, player: PlayerId, pawn: int, k: int)
    requires
        b.len() <= 255,
    ensures
        events_name_seats(slide_bumps(b, path, player, pawn, k), b.len() as int),
    decreases k,
{
    if k > 0 {
        lemma_slide_bumps_seats(b, path, player, pawn, k - 1);
        let prev = slide_board(b, path, player, pawn, k - 1);
        lemma_slide_board_shape(b, path, player, pawn, k - 1);
        lemma_space_bumps_seats(prev, path[k - 1], player, pawn, false, prev.len() as int);
        lemma_seats_concat(
            slide_bumps(b, path, player, pawn, k - 1),
            space_bumps(prev, path[k - 1], player, pawn, false, prev.len() as int),
            b.len() as int,
        );
    }
}

proof fn lemma_move_pawn_seats(b: Seq<Seq<SpaceId>>, player: PlayerId, pawn: int, to: SpaceId, bump_dest: bool)
    requires
        b.len() <= 255,
        0 <= player.0 < b.len(),
        0 <= pawn < b[player.0 as int].len(),
    ensures
        events_name_seats(spec_move_pawn(b, player, pawn, to, bump_dest).1, b.len() as int),
        spec_move_pawn(b, player, pawn, to, bump_dest).0.len() == b.len(),
        same_shape(b, spec_move_pawn(b, player, pawn, to, bump_dest).0),
{
    let b1 = if bump_dest {
        bumped_board(b, to, player, pawn, true)
    } else {
        b
    };
    lemma_bumped_shape(b, to, player, pawn, true);
    if bump_dest {
        lemma_space_bumps_seats(b, to, player, pawn, true, b.len() as int);
    }
    let e1 = if bump_dest {
        space_bumps(b, to, player, pawn, true, b.len() as int)
    } else {
        Seq::empty()
    };
    let b2 = board_set(b1, player.0 as int, pawn, to);
    lemma_set_shape(b1, player.0 as int, pawn, to);
    match spec_slide(to, player) {
        None => {},
        Some((end, path)) => {
            lemma_slide_board_shape(b2, path, player, pawn, path.len() as int);
            lemma_slide_bumps_seats(b2, path, player, pawn, path.len() as int);
            let b3 = slide_board(b2, path, player, pawn, path.len() as int);
            lemma_set_shape(b3, player.0 as int, pawn, end);
            lemma_seats_concat(e1, slide_bumps(b2, path, player, pawn, path.len() as int), b.len() as int);
        },
    }
}

/// A bump sends the pawn to its owner's Start area.
pub open spec fn sent_home(s: Seq<BumpEvent>) -> bool {
    forall|k: int| 0 <= k < s.len() ==> (#[trigger] s[k]).to == spec_start_area_id(s[k].player)
}

/// Every pawn of `c` other than `player`'s pawn `pawn` is where it was on
/// `b` or on its owner's Start area.
pub open spec fn others_stay_or_go_home(b: Seq<Seq<SpaceId>>, c: Seq<Seq<SpaceId>>, player: PlayerId, pawn: int) -> bool {
    &&& same_shape(b, c)
    &&& forall|q: int, i: int|
        0 <= q < b.len() && 0 <= i < b[q].len() && !(q == player.0 && i == pawn) ==> #[trigger] c[q][i] == b[q][i]
            || c[q][i] == start_of(q)
}

/// Where a pawn that lands on `to` comes to rest: the end of the slide that
/// `to` heads, if any.
pub open spec fn resting_space(to: SpaceId, player: PlayerId) -> SpaceId {
    match spec_slide(to, player) {
        Some((end, _)) => end,
        None => to,
    }
}

proof fn lemma_sent_home_concat(a: Seq<BumpEvent>, c: Seq<BumpEvent>)
    requires
        sent_home(a),
        sent_home(c),
    ensures
        sent_home(a + c),
{
    assert forall|k: int| 0 <= k < (a + c).len() implies (#[trigger] (a + c)[k]).to == spec_start_area_id((a + c)[k].player) by {
        if k < a.len() {
            assert((a + c)[k] == a[k]);
        } else {
            assert((a + c)[k] == c[k - a.len()]);
        }
    }
}

proof fn lemma_row_bumps_home(b: Seq<Seq<SpaceId>>, target: SpaceId, player: PlayerId, pawn: int, whole: bool, p: int, k: int)
    ensures
        sent_home(row_bumps(b, target, player, pawn, whole, p, k)),
    decreases k,
{
    if k > 0 {
        lemma_row_bumps_home(b, target, player, pawn, whole, p, k - 1);
        let tail = if is_hit(b, target, player, pawn, whole, p, k - 1) {
            seq![bump_event(p, k - 1, target)]
        } else {
            Seq::empty()
        };
        lemma_sent_home_concat(row_bumps(b, target, player, pawn, whole, p, k - 1), tail);
    }
}

proof fn lemma_space_bumps_home(b: Seq<Seq<SpaceId>>, target: SpaceId, player: PlayerId, pawn: int, whole: bool, n: int)
    ensures
        sent_home(space_bumps(b, target, player, pawn, whole, n)),
    decreases n,
{
    if n > 0 {
        lemma_space_bumps_home(b, target, player, pawn, whole, n - 1);
        lemma_row_bumps_home(b, target, player, pawn, whole, n - 1, b[n - 1].len() as int);
        lemma_sent_home_concat(
            space_bumps(b, target, player, pawn, whole, n - 1),
            row_bumps(b, target, player, pawn, whole, n - 1, b[n - 1].len() as int),
        );
    }
}

proof fn lemma_slide_bumps_home(b: Seq<Seq<SpaceId>>, path: Seq<SpaceId>, player: PlayerId, pawn: int, k: int)
    ensures
        sent_home(slide_bumps(b, path, player, pawn, k)),
    decreases k,
{
    if k > 0 {
        lemma_slide_bumps_home(b, path, player, pawn, k - 1);
        let prev = slide_board(b, path, player, pawn, k - 1);
        lemma_space_bumps_home(prev, path[k - 1], player, pawn, false, prev.len() as int);
        lemma_sent_home_concat(
            slide_bumps(b, path, player, pawn, k - 1),
            space_bumps(prev, path[k - 1], player, pawn, false, prev.len() as int),
        );
    }
}

proof fn lemma_stay_trans(a: Seq<Seq<SpaceId>>, b: Seq<Seq<SpaceId>>, c: Seq<Seq<SpaceId>>, player: PlayerId, pawn: int)
    requires
        others_stay_or_go_home(a, b, player, pawn),
        others_stay_or_go_home(b, c, player, pawn),
    ensures
        others_stay_or_go_home(a, c, player, pawn),
{
    assert forall|q: int, i: int|
        0 <= q < a.len() && 0 <= i < a[q].len() && !(q == player.0 && i == pawn) implies #[trigger] c[q][i]
            == a[q][i] || c[q][i] == start_of(q) by {
        assert(b[q][i] == a[q][i] || b[q][i] == start_of(q));
        assert(c[q][i] == b[q][i] || c[q][i] == start_of(q));
    }
}

proof fn lemma_bumped_stays(b: Seq<Seq<SpaceId>>, target: SpaceId, player: PlayerId, pawn: int, whole: bool)
    ensures
        others_stay_or_go_home(b, bumped_board(b, target, player, pawn, whole), player, pawn),
{
    lemma_bumped_shape(b, target, player, pawn, whole);
}

proof fn lemma_set_stays(b: Seq<Seq<SpaceId>>, player: PlayerId, pawn: int, to: SpaceId)
    requires
        0 <= player.0 < b.len(),
        0 <= pawn < b[player.0 as int].len(),
    ensures
        others_stay_or_go_home(b, board_set(b, player.0 as int, pawn, to), player, pawn),
        board_set(b, player.0 as int, pawn, to)[player.0 as int][pawn] == to,
{
    lemma_set_shape(b, player.0 as int, pawn, to);
}

proof fn lemma_slide_board_stays(b: Seq<Seq<SpaceId>>, path: Seq<SpaceId>, player: PlayerId, pawn: int, k: int)
    ensures
        others_stay_or_go_home(b, slide_board(b, path, player, pawn, k), player, pawn),
    decreases k,
{
    if k > 0 {
        lemma_slide_board_stays(b, path, player, pawn, k - 1);
        let prev = slide_board(b, path, player, pawn, k - 1);
        lemma_bumped_stays(prev, path[k - 1], player, pawn, false);
        lemma_stay_trans(b, prev, slide_board(b, path, player, pawn, k), player, pawn);
    } else {
        assert(others_stay_or_go_home(b, b, player, pawn));
    }
}

// ─── Which pawns a move touches ─────────────────────────────────────────

/// Bump event `e` names pawn `i` of seat `q`.
pub open spec fn names_pawn(e: BumpEvent, q: int, i: int) -> bool {
    e.player.0 as int == q && e.pawn.0 as int == i
}

/// Every pawn whose place differs between `b` and `c`, other than
/// `player`'s pawn `pawn`, is named by an event of `events`.
pub open spec fn changes_named(b: Seq<Seq<SpaceId>>, c: Seq<Seq<SpaceId>>, events: Seq<BumpEvent>, player: PlayerId, pawn: int) -> bool {
    forall|q: int, i: int|
        0 <= q < b.len() && 0 <= i < b[q].len() && !(q == player.0 && i == pawn) && #[trigger] c[q][i] != b[q][i]
            ==> exists|k: int| 0 <= k < events.len() && #[trigger] names_pawn(events[k], q, i)
}

/// Every event of `events` names a pawn slot of board `c`.
pub open spec fn events_in(c: Seq<Seq<SpaceId>>, events: Seq<BumpEvent>) -> bool {
    forall|k: int|
        0 <= k < events.len() ==> (#[trigger] events[k]).player.0 < c.len() && events[k].pawn.0 < c[events[k].player.0 as int].len()
}

/// Every pawn an event of `events` names stands on its own Start area on `c`.
pub open spec fn bumped_rest_home(c: Seq<Seq<SpaceId>>, events: Seq<BumpEvent>) -> bool {
    forall|k: int|
        0 <= k < events.len() ==> c[(#[trigger] events[k]).player.0 as int][events[k].pawn.0 as int] == start_of(
            events[k].player.0 as int,
        )
}

/// No event of `events` names `player`'s pawn `pawn`.
pub open spec fn spares(events: Seq<BumpEvent>, player: PlayerId, pawn: int) -> bool {
    forall|k: int| 0 <= k < events.len() ==> !names_pawn(#[trigger] events[k], player.0 as int, pawn)
}

/// The four facts above, from `b` to `c` through `events`.
pub open spec fn accounted(b: Seq<Seq<SpaceId>>, c: Seq<Seq<SpaceId>>, events: Seq<BumpEvent>, player: PlayerId, pawn: int) -> bool {
    &&& same_shape(b, c)
    &&& changes_named(b, c, events, player, pawn)
    &&& events_in(c, events)
    &&& bumped_rest_home(c, events)
    &&& spares(events, player, pawn)
}

/// `e` bumps a pawn of `b` that is hit on `target`.
pub open spec fn hit_event(b: Seq<Seq<SpaceId>>, target: SpaceId, player: PlayerId, pawn: int, whole: bool, e: BumpEvent) -> bool {
    exists|p: int, i: int|
        0 <= p < b.len() && 0 <= i < b[p].len() && #[trigger] is_hit(b, target, player, pawn, whole, p, i) && e
            == bump_event(p, i, target)
}

proof fn lemma_row_bumps_hits(b: Seq<Seq<SpaceId>>, target: SpaceId, player: PlayerId, pawn: int, whole: bool, p: int, k: int)
    requires
        0 <= p < b.len(),
        0 <= k <= b[p].len(),
    ensures
        forall|j: int|
            0 <= j < row_bumps(b, target, player, pawn, whole, p, k).len() ==> hit_event(
                b,
                target,
                player,
                pawn,
                whole,
                #[trigger] row_bumps(b, target, player, pawn, whole, p, k)[j],
            ),
        forall|i: int|
            0 <= i < k && #[trigger] is_hit(b, target, player, pawn, whole, p, i) ==> row_bumps(
                b,
                target,
                player,
                pawn,
                whole,
                p,
                k,
            ).contains(bump_event(p, i, target)),
    decreases k,
{
    if k > 0 {
        lemma_row_bumps_hits(b, target, player, pawn, whole, p, k - 1);
        let prev = row_bumps(b, target, player, pawn, whole, p, k - 1);
        let cur = row_bumps(b, target, player, pawn, whole, p, k);
        if is_hit(b, target, player, pawn, whole, p, k - 1) {
            assert(cur == prev + seq![bump_event(p, k - 1, target)]);
            assert(cur[prev.len() as int] == bump_event(p, k - 1, target));
            assert forall|j: int| 0 <= j < cur.len() implies hit_event(b, target, player, pawn, whole, #[trigger] cur[j]) by {
                if j < prev.len() {
                    assert(cur[j] == prev[j]);
                } else {
                    assert(is_hit(b, target, player, pawn, whole, p, k - 1));
                }
            }
            assert forall|i: int| 0 <= i < k && #[trigger] is_hit(b, target, player, pawn, whole, p, i) implies cur.contains(
                bump_event(p, i, target),
            ) by {
                if i < k - 1 {
                    let j = choose|j: int| 0 <= j < prev.len() && prev[j] == bump_event(p, i, target);
                    assert(cur[j] == prev[j]);
                }
            }
        } else {
            assert(cur =~= prev);
        }
    }
}

proof fn lemma_space_bumps_hits(b: Seq<Seq<SpaceId>>, target: SpaceId, player: PlayerId, pawn: int, whole: bool, n: int)
    requires
        0 <= n <= b.len(),
    ensures
        forall|j: int|
            0 <= j < space_bumps(b, target, player, pawn, whole, n).len() ==> hit_event(
                b,
                target,
                player,
                pawn,
                whole,
                #[trigger] space_bumps(b, target, player, pawn, whole, n)[j],
            ),
        forall|p: int, i: int|
            0 <= p < n && 0 <= i < b[p].len() && #[trigger] is_hit(b, target, player, pawn, whole, p, i)
                ==> space_bumps(b, target, player, pawn, whole, n).contains(bump_event(p, i, target)),
    decreases n,
{
    if n > 0 {
        lemma_space_bumps_hits(b, target, player, pawn, whole, n - 1);
        let row = b[n - 1].len() as int;
        lemma_row_bumps_hits(b, target, player, pawn, whole, n - 1, row);
        let prev = space_bumps(b, target, player, pawn, whole, n - 1);
        let tail = row_bumps(b, target, player, pawn, whole, n - 1, row);
        let cur = space_bumps(b, target, player, pawn, whole, n);
        assert(cur == prev + tail);
        assert forall|j: int| 0 <= j < cur.len() implies hit_event(b, target, player, pawn, whole, #[trigger] cur[j]) by {
            if j < prev.len() {
                assert(cur[j] == prev[j]);
            } else {
                assert(cur[j] == tail[j - prev.len()]);
            }
        }
        assert forall|p: int, i: int|
            0 <= p < n && 0 <= i < b[p].len() && #[trigger] is_hit(b, target, player, pawn, whole, p, i) implies cur.contains(
            bump_event(p, i, target),
        ) by {
            if p < n - 1 {
                let j = choose|j: int| 0 <= j < prev.len() && prev[j] == bump_event(p, i, target);
                assert(cur[j] == prev[j]);
            } else {
                let j = choose|j: int| 0 <= j < tail.len() && tail[j] == bump_event(p, i, target);
                assert(cur[prev.len() + j] == tail[j]);
            }
        }
    }
}

/// Bumping every hit pawn on `target` is accounted for by the bump events.
proof fn lemma_bumped_accounted(b: Seq<Seq<SpaceId>>, target: SpaceId, player: PlayerId, pawn: int, whole: bool)
    requires
        board_shape_ok(b),
    ensures
        accounted(
            b,
            bumped_board(b, target, player, pawn, whole),
            space_bumps(b, target, player, pawn, whole, b.len() as int),
            player,
            pawn,
        ),
{
    let c = bumped_board(b, target, player, pawn, whole);
    let e = space_bumps(b, target, player, pawn, whole, b.len() as int);
    lemma_bumped_shape(b, target, player, pawn, whole);
    lemma_space_bumps_hits(b, target, player, pawn, whole, b.len() as int);
    assert forall|q: int, i: int|
        0 <= q < b.len() && 0 <= i < b[q].len() && !(q == player.0 && i == pawn) && #[trigger] c[q][i] != b[q][i] implies exists|k: int|
        0 <= k < e.len() && #[trigger] names_pawn(e[k], q, i) by {
        assert(is_hit(b, target, player, pawn, whole, q, i));
        assert(e.contains(bump_event(q, i, target)));
        let k = choose|k: int| 0 <= k < e.len() && e[k] == bump_event(q, i, target);
        assert(names_pawn(e[k], q, i));
    }
    assert forall|k: int| 0 <= k < e.len() implies {
        &&& (#[trigger] e[k]).player.0 < c.len() && e[k].pawn.0 < c[e[k].player.0 as int].len()
        &&& c[e[k].player.0 as int][e[k].pawn.0 as int] == start_of(e[k].player.0 as int)
        &&& !names_pawn(e[k], player.0 as int, pawn)
    } by {
        assert(hit_event(b, target, player, pawn, whole, e[k]));
        let (p, i) = choose|p: int, i: int|
            0 <= p < b.len() && 0 <= i < b[p].len() && #[trigger] is_hit(b, target, player, pawn, whole, p, i) && e[k]
                == bump_event(p, i, target);
        assert(e[k].player.0 as int == p);
        assert(e[k].pawn.0 as int == i);
    }
}

/// Placing `player`'s pawn `pawn` keeps the account of the other pawns.
proof fn lemma_set_accounted(b: Seq<Seq<SpaceId>>, c: Seq<Seq<SpaceId>>, events: Seq<BumpEvent>, player: PlayerId, pawn: int, to: SpaceId)
    requires
        accounted(b, c, events, player, pawn),
        0 <= player.0 < c.len(),
        0 <= pawn < c[player.0 as int].len(),
    ensures
        accounted(b, board_set(c, player.0 as int, pawn, to), events, player, pawn),
{
    let d = board_set(c, player.0 as int, pawn, to);
    lemma_set_shape(c, player.0 as int, pawn, to);
    assert forall|q: int, i: int|
        0 <= q < b.len() && 0 <= i < b[q].len() && !(q == player.0 && i == pawn) && #[trigger] d[q][i] != b[q][i] implies exists|k: int|
        0 <= k < events.len() && #[trigger] names_pawn(events[k], q, i) by {
        assert(d[q][i] == c[q][i]);
    }
    assert forall|k: int| 0 <= k < events.len() implies d[(#[trigger] events[k]).player.0 as int][events[k].pawn.0 as int]
        == start_of(events[k].player.0 as int) by {
        assert(!names_pawn(events[k], player.0 as int, pawn));
    }
}

/// Accounts compose: the changes from `a` to `c` are named by the events
/// from `a` to `b` followed by those from `b` to `c`.
proof fn lemma_accounted_trans(
    a: Seq<Seq<SpaceId>>,
    b: Seq<Seq<SpaceId>>,
    c: Seq<Seq<SpaceId>>,
    e1: Seq<BumpEvent>,
    e2: Seq<BumpEvent>,
    player: PlayerId,
    pawn: int,
)
    requires
        accounted(a, b, e1, player, pawn),
        accounted(b, c, e2, player, pawn),
        events_in(c, e1),
        bumped_rest_home(c, e1),
    ensures
        accounted(a, c, e1 + e2, player, pawn),
{
    let e = e1 + e2;
    assert forall|q: int, i: int|
        0 <= q < a.len() && 0 <= i < a[q].len() && !(q == player.0 && i == pawn) && #[trigger] c[q][i] != a[q][i] implies exists|k: int|
        0 <= k < e.len() && #[trigger] names_pawn(e[k], q, i) by {
        if b[q][i] != a[q][i] {
            let k = choose|k: int| 0 <= k < e1.len() && #[trigger] names_pawn(e1[k], q, i);
            assert(e[k] == e1[k]);
        } else {
            assert(c[q][i] != b[q][i]);
            let k = choose|k: int| 0 <= k < e2.len() && #[trigger] names_pawn(e2[k], q, i);
            assert(e[e1.len() + k] == e2[k]);
        }
    }
    assert forall|k: int| 0 <= k < e.len() implies {
        &&& (#[trigger] e[k]).player.0 < c.len() && e[k].pawn.0 < c[e[k].player.0 as int].len()
        &&& c[e[k].player.0 as int][e[k].pawn.0 as int] == start_of(e[k].player.0 as int)
        &&& !names_pawn(e[k], player.0 as int, pawn)
    } by {
        if k < e1.len() {
            assert(e[k] == e1[k]);
        } else {
            assert(e[k] == e2[k - e1.len()]);
        }
    }
}

/// A bump on a space that is no Start area leaves every pawn resting on
/// its Start area where it is.
proof fn lemma_home_kept(c: Seq<Seq<SpaceId>>, events: Seq<BumpEvent>, target: SpaceId, player: PlayerId, pawn: int, whole: bool)
    requires
        events_in(c, events),
        bumped_rest_home(c, events),
        target.0 < 60,
    ensures
        events_in(bumped_board(c, target, player, pawn, whole), events),
        bumped_rest_home(bumped_board(c, target, player, pawn, whole), events),
{
    let d = bumped_board(c, target, player, pawn, whole);
    assert forall|k: int| 0 <= k < events.len() implies {
        &&& (#[trigger] events[k]).player.0 < d.len() && events[k].pawn.0 < d[events[k].player.0 as int].len()
        &&& d[events[k].player.0 as int][events[k].pawn.0 as int] == start_of(events[k].player.0 as int)
    } by {
        let p = events[k].player.0 as int;
        let i = events[k].pawn.0 as int;
        assert(c[p][i] == start_of(p));
        assert(!is_hit(c, target, player, pawn, whole, p, i));
    }
}

/// Every space of a slide path is a track space.
proof fn lemma_slide_path_on_track(to: SpaceId, player: PlayerId)
    ensures
        spec_slide(to, player) matches Some((_, path)) ==> forall|j: int| 0 <= j < path.len() ==> (#[trigger] path[j]).0 < 60,
{
}

/// The bumps along a slide are accounted for, and pawns already at home
/// in an earlier account stay there.
proof fn lemma_slide_accounted(
    b: Seq<Seq<SpaceId>>,
    path: Seq<SpaceId>,
    player: PlayerId,
    pawn: int,
    k: int,
    e0: Seq<BumpEvent>,
)
    requires
        board_shape_ok(b),
        0 <= k <= path.len(),
        forall|j: int| 0 <= j < path.len() ==> (#[trigger] path[j]).0 < 60,
        events_in(b, e0),
        bumped_rest_home(b, e0),
    ensures
        accounted(b, slide_board(b, path, player, pawn, k), slide_bumps(b, path, player, pawn, k), player, pawn),
        events_in(slide_board(b, path, player, pawn, k), e0),
        bumped_rest_home(slide_board(b, path, player, pawn, k), e0),
    decreases k,
{
    if k == 0 {
        assert(same_shape(b, b));
        assert(accounted(b, b, Seq::empty(), player, pawn));
    } else {
        lemma_slide_accounted(b, path, player, pawn, k - 1, e0);
        let prev = slide_board(b, path, player, pawn, k - 1);
        let ep = slide_bumps(b, path, player, pawn, k - 1);
        let target = path[k - 1];
        let cur = slide_board(b, path, player, pawn, k);
        assert(board_shape_ok(prev)) by {
            assert forall|p: int| 0 <= p < prev.len() implies #[trigger] prev[p].len() <= 255 by {
                assert(prev[p].len() == b[p].len());
            }
        }
        lemma_bumped_accounted(prev, target, player, pawn, false);
        lemma_home_kept(prev, e0, target, player, pawn, false);
        lemma_home_kept(prev, ep, target, player, pawn, false);
        lemma_accounted_trans(b, prev, cur, ep, space_bumps(prev, target, player, pawn, false, prev.len() as int), player, pawn);
    }
}

/// A single pawn's move (a forward or backward move, or leaving Start):
/// the pawn comes to rest on its destination, or at the end of the slide
/// the destination heads; there is one slide event exactly when the
/// destination heads a slide; every pawn it bumps is another pawn than the
/// mover, and goes to, and ends the move on, its owner's Start area; every
/// other pawn stays where it was or is sent to its Start area, and a pawn
/// that no bump event names keeps its place.
pub proof fn lemma_single_move_effect(b: Seq<Seq<SpaceId>>, player: PlayerId, mv: Move)
    requires
        apply_ok(b, player, mv),
        mv is Advance || mv is Retreat || mv is StartPawn,
    ensures
        ({
            let (pawn, to) = match mv {
                Move::Advance { pawn, to, .. } => (pawn.0 as int, to),
                Move::Retreat { pawn, to, .. } => (pawn.0 as int, to),
                Move::StartPawn { pawn, to } => (pawn.0 as int, to),
                _ => (0, SpaceId(0)),
            };
            let r = spec_apply_move(b, player, mv);
            &&& r.0[player.0 as int][pawn] == resting_space(to, player)
            &&& r.2.len() == (if spec_slide(to, player) is Some { 1int } else { 0int })
            &&& sent_home(r.1)
            &&& others_stay_or_go_home(b, r.0, player, pawn)
            &&& accounted(b, r.0, r.1, player, pawn)
        }),
{
    let (pawn, to) = match mv {
        Move::Advance { pawn, to, .. } => (pawn.0 as int, to),
        Move::Retreat { pawn, to, .. } => (pawn.0 as int, to),
        Move::StartPawn { pawn, to } => (pawn.0 as int, to),
        _ => (0, SpaceId(0)),
    };
    assert(spec_apply_move(b, player, mv) == spec_move_pawn(b, player, pawn, to, true));
    let b1 = bumped_board(b, to, player, pawn, true);
    lemma_bumped_stays(b, to, player, pawn, true);
    lemma_space_bumps_home(b, to, player, pawn, true, b.len() as int);
    lemma_set_stays(b1, player, pawn, to);
    let b2 = board_set(b1, player.0 as int, pawn, to);
    lemma_stay_trans(b, b1, b2, player, pawn);
    let e1 = space_bumps(b, to, player, pawn, true, b.len() as int);
    lemma_bumped_accounted(b, to, player, pawn, true);
    lemma_set_accounted(b, b1, e1, player, pawn, to);
    lemma_slide_path_on_track(to, player);
    match spec_slide(to, player) {
        None => {},
        Some((end, path)) => {
            assert(board_shape_ok(b2)) by {
                assert forall|p: int| 0 <= p < b2.len() implies #[trigger] b2[p].len() <= 255 by {
                    assert(b2[p].len() == b[p].len());
                }
            }
            lemma_slide_accounted(b2, path, player, pawn, path.len() as int, e1);
            let b3 = slide_board(b2, path, player, pawn, path.len() as int);
            let e2 = slide_bumps(b2, path, player, pawn, path.len() as int);
            lemma_accounted_trans(b, b2, b3, e1, e2, player, pawn);
            lemma_set_accounted(b, b3, e1 + e2, player, pawn, end);
            lemma_slide_board_stays(b2, path, player, pawn, path.len() as int);
            let b3 = slide_board(b2, path, player, pawn, path.len() as int);
            lemma_stay_trans(b, b2, b3, player, pawn);
            lemma_set_stays(b3, player, pawn, end);
            lemma_stay_trans(b, b3, board_set(b3, player.0 as int, pawn, end), player, pawn);
            lemma_slide_bumps_home(b2, path, player, pawn, path.len() as int);
            lemma_sent_home_concat(
                space_bumps(b, to, player, pawn, true, b.len() as int),
                slide_bumps(b2, path, player, pawn, path.len() as int),
            );
        },
    }
}

/// `s` is one of the Start areas of a table of at most four seats.
pub open spec fn is_start_id(s: SpaceId) -> bool {
    60 <= s.0 < 64
}

proof fn lemma_bump_clears(c: Seq<Seq<SpaceId>>, target: SpaceId, player: PlayerId, pawn: int, whole: bool)
    requires
        c.len() <= 4,
        !is_start_id(target),
    ensures
        forall|q: int, i: int|
            0 <= q < c.len() && 0 <= i < c[q].len() && !exempt(q, i, player, pawn, whole) ==> #[trigger] bumped_board(
                c,
                target,
                player,
                pawn,
                whole,
            )[q][i] != target,
{
}

/// One pawn's move: the pawn comes to rest where it landed, or at the end
/// of the slide its landing space heads; the bumps account for every other
/// pawn that moved; every other pawn stays or goes to its Start area; and,
/// at a table of at most four seats, no pawn of another seat is left on the
/// space where the mover came to rest.
pub proof fn lemma_move_pawn_effect(b: Seq<Seq<SpaceId>>, player: PlayerId, pawn: int, to: SpaceId)
    requires
        board_shape_ok(b),
        0 <= player.0 < b.len(),
        0 <= pawn < b[player.0 as int].len(),
    ensures
        ({
            let r = spec_move_pawn(b, player, pawn, to, true);
            &&& r.0[player.0 as int][pawn] == resting_space(to, player)
            &&& accounted(b, r.0, r.1, player, pawn)
            &&& others_stay_or_go_home(b, r.0, player, pawn)
            &&& b.len() <= 4 && !is_start_id(to) ==> forall|q: int, i: int|
                0 <= q < b.len() && q != player.0 && 0 <= i < b[q].len() ==> #[trigger] r.0[q][i] != resting_space(
                    to,
                    player,
                )
        }),
{
    let b1 = bumped_board(b, to, player, pawn, true);
    lemma_bumped_stays(b, to, player, pawn, true);
    lemma_set_stays(b1, player, pawn, to);
    let b2 = board_set(b1, player.0 as int, pawn, to);
    lemma_stay_trans(b, b1, b2, player, pawn);
    let e1 = space_bumps(b, to, player, pawn, true, b.len() as int);
    lemma_bumped_accounted(b, to, player, pawn, true);
    lemma_set_accounted(b, b1, e1, player, pawn, to);
    lemma_slide_path_on_track(to, player);
    crate::rules::lemma_slide_shape(to, player);
    if b.len() <= 4 && !is_start_id(to) {
        lemma_bump_clears(b, to, player, pawn, true);
    }
    match spec_slide(to, player) {
        None => {
            if b.len() <= 4 && !is_start_id(to) {
                assert forall|q: int, i: int| 0 <= q < b.len() && q != player.0 && 0 <= i < b[q].len() implies #[trigger] b2[q][i]
                    != to by {
                    assert(b2[q][i] == b1[q][i]);
                }
            }
        },
        Some((end, path)) => {
            assert(board_shape_ok(b2)) by {
                assert forall|p: int| 0 <= p < b2.len() implies #[trigger] b2[p].len() <= 255 by {
                    assert(b2[p].len() == b[p].len());
                }
            }
            lemma_slide_accounted(b2, path, player, pawn, path.len() as int, e1);
            let b3 = slide_board(b2, path, player, pawn, path.len() as int);
            let e2 = slide_bumps(b2, path, player, pawn, path.len() as int);
            lemma_accounted_trans(b, b2, b3, e1, e2, player, pawn);
            lemma_set_accounted(b, b3, e1 + e2, player, pawn, end);
            lemma_slide_board_stays(b2, path, player, pawn, path.len() as int);
            lemma_stay_trans(b, b2, b3, player, pawn);
            lemma_set_stays(b3, player, pawn, end);
            lemma_stay_trans(b, b3, board_set(b3, player.0 as int, pawn, end), player, pawn);
            let prev = slide_board(b2, path, player, pawn, path.len() - 1);
            assert(b3 == bumped_board(prev, path[path.len() - 1], player, pawn, false));
            lemma_slide_board_stays(b2, path, player, pawn, path.len() - 1);
            if b.len() <= 4 {
                assert(!is_start_id(end));
                lemma_bump_clears(prev, end, player, pawn, false);
                let fin = board_set(b3, player.0 as int, pawn, end);
                assert forall|q: int, i: int| 0 <= q < b.len() && q != player.0 && 0 <= i < b[q].len() implies #[trigger] fin[q][i]
                    != end by {
                    assert(fin[q][i] == b3[q][i]);
                    assert(prev[q].len() == b2[q].len());
                }
            }
        },
    }
}

/// A split 7 is two single moves, each bumping the pawns of other seats
/// where it lands: at a table of at most four seats, with neither leg
/// landing on a Start area, no pawn of another seat is left on the space
/// where either leg came to rest, the second leg's pawn rests where its
/// leg ends, and every pawn of another seat standing on the second leg's
/// destination is named in a bump event and ends the move in its own Start
/// area.
pub proof fn lemma_split_effect(b: Seq<Seq<SpaceId>>, player: PlayerId, mv: Move)
    requires
        apply_ok(b, player, mv),
        b.len() <= 4,
        mv matches Move::SplitSeven { first, second } && !is_start_id(first.to) && !is_start_id(second.to),
    ensures
        ({
            let first = mv->SplitSeven_first;
            let second = mv->SplitSeven_second;
            let r = spec_apply_move(b, player, mv);
            &&& r.0[player.0 as int][second.pawn.0 as int] == resting_space(second.to, player)
            &&& forall|q: int, i: int|
                0 <= q < b.len() && q != player.0 && 0 <= i < b[q].len() ==> #[trigger] r.0[q][i] != resting_space(
                    first.to,
                    player,
                ) && r.0[q][i] != resting_space(second.to, player)
            &&& forall|q: int, i: int|
                0 <= q < b.len() && q != player.0 && 0 <= i < b[q].len() && #[trigger] b[q][i] == second.to ==> r.0[q][i]
                    == start_of(q) && exists|k: int| 0 <= k < r.1.len() && #[trigger] names_pawn(r.1[k], q, i)
        }),
{
    let first = mv->SplitSeven_first;
    let second = mv->SplitSeven_second;
    let pa = first.pawn.0 as int;
    let pb = second.pawn.0 as int;
    lemma_move_pawn_effect(b, player, pa, first.to);
    let r1 = spec_move_pawn(b, player, pa, first.to, true);
    let c1 = r1.0;
    assert(board_shape_ok(c1)) by {
        assert forall|p: int| 0 <= p < c1.len() implies #[trigger] c1[p].len() <= 255 by {
            assert(c1[p].len() == b[p].len());
        }
    }
    lemma_move_pawn_effect(c1, player, pb, second.to);
    let r2 = spec_move_pawn(c1, player, pb, second.to, true);
    let c = r2.0;
    let e1 = r1.1;
    let e2 = r2.1;
    assert(spec_apply_move(b, player, mv) == (c, e1 + e2, r1.2 + r2.2));
    let e = spec_apply_move(b, player, mv).1;
    assert(e == e1 + e2);
    crate::rules::lemma_slide_shape(first.to, player);
    let rest1 = resting_space(first.to, player);
    assert(!is_start_id(rest1));
    assert forall|q: int, i: int| 0 <= q < b.len() && q != player.0 && 0 <= i < b[q].len() implies #[trigger] c[q][i]
        != rest1 && c[q][i] != resting_space(second.to, player) by {
        assert(c1[q][i] != rest1);
        assert(c[q][i] == c1[q][i] || c[q][i] == start_of(q));
        assert(c1[q].len() == b[q].len());
    }
    assert forall|q: int, i: int|
        0 <= q < b.len() && q != player.0 && 0 <= i < b[q].len() && #[trigger] b[q][i] == second.to implies c[q][i]
        == start_of(q) && exists|k: int| 0 <= k < e.len() && #[trigger] names_pawn(e[k], q, i) by {
        assert(c1[q].len() == b[q].len());
        if c1[q][i] != b[q][i] {
            let k = choose|k: int| 0 <= k < e1.len() && #[trigger] names_pawn(e1[k], q, i);
            assert(e[k] == e1[k]);
            assert(c1[q][i] == start_of(q));
            assert(c[q][i] == c1[q][i] || c[q][i] == start_of(q));
        } else {
            let bumped = space_bumps(c1, second.to, player, pb, true, c1.len() as int);
            lemma_space_bumps_hits(c1, second.to, player, pb, true, c1.len() as int);
            assert(is_hit(c1, second.to, player, pb, true, q, i));
            assert(bumped.contains(bump_event(q, i, second.to)));
            let j = choose|j: int| 0 <= j < bumped.len() && bumped[j] == bump_event(q, i, second.to);
            assert(e2 == bumped + (e2.subrange(bumped.len() as int, e2.len() as int))) by {
                assert(e2.subrange(0, bumped.len() as int) =~= bumped);
                assert(e2 =~= e2.subrange(0, bumped.len() as int) + e2.subrange(bumped.len() as int, e2.len() as int));
            }
            assert(e2[j] == bumped[j]);
            assert(names_pawn(e2[j], q, i));
            assert(e[e1.len() + j] == e2[j]);
        }
    }
}

/// Every pawn a move bumps belongs to one of the seats at the table, and the
/// board keeps its shape.
pub proof fn lemma_bumps_name_seats(b: Seq<Seq<SpaceId>>, player: PlayerId, mv: Move)
    requires
        apply_ok(b, player, mv),
    ensures
        events_name_seats(spec_apply_move(b, player, mv).1, b.len() as int),
        same_shape(b, spec_apply_move(b, player, mv).0),
{
    match mv {
        Move::Pass => {},
        Move::Advance { pawn, to, .. } => lemma_move_pawn_seats(b, player, pawn.0 as int, to, true),
        Move::Retreat { pawn, to, .. } => lemma_move_pawn_seats(b, player, pawn.0 as int, to, true),
        Move::StartPawn { pawn, to } => lemma_move_pawn_seats(b, player, pawn.0 as int, to, true),
        Move::SplitSeven { first, second } => {
            lemma_move_pawn_seats(b, player, first.pawn.0 as int, first.to, true);
            let r1 = spec_move_pawn(b, player, first.pawn.0 as int, first.to, true);
            lemma_move_pawn_seats(r1.0, player, second.pawn.0 as int, second.to, true);
            let r2 = spec_move_pawn(r1.0, player, second.pawn.0 as int, second.to, true);
            lemma_seats_concat(r1.1, r2.1, b.len() as int);
        },
        Move::SwapEleven { my_pawn, their_player, their_pawn } => {
            let mine = b[player.0 as int][my_pawn.0 as int];
            let theirs = b[their_player.0 as int][their_pawn.0 as int];
            lemma_set_shape(b, player.0 as int, my_pawn.0 as int, theirs);
            let b1 = board_set(b, player.0 as int, my_pawn.0 as int, theirs);
            lemma_set_shape(b1, their_player.0 as int, their_pawn.0 as int, mine);
        },
        Move::Sorry { my_pawn, their_player, their_pawn, to } => {
            let their_start = spec_start_area_id(their_player);
            lemma_set_shape(b, their_player.0 as int, their_pawn.0 as int, their_start);
            let b1 = board_set(b, their_player.0 as int, their_pawn.0 as int, their_start);
            lemma_move_pawn_seats(b1, player, my_pawn.0 as int, to, false);
            let ev = BumpEvent {
                player: their_player,
                pawn: their_pawn,
                from: b[their_player.0 as int][their_pawn.0 as int],
                to: their_start,
            };
            let r = spec_move_pawn(b1, player, my_pawn.0 as int, to, false);
            lemma_seats_concat(seq![ev], r.1, b.len() as int);
        },
    }
}

fn bump_space(board: &mut BoardState, target: SpaceId, player: PlayerId, pawn: u8, whole: bool, bumps: &mut Vec<BumpEvent>)
    requires
        board_shape_ok(old(board)@),
    ensures
        final(board)@ == bumped_board(old(board)@, target, player, pawn as int, whole),
        final(bumps)@ == old(bumps)@ + space_bumps(old(board)@, target, player, pawn as int, whole, old(board)@.len() as int),
{
    let ghost b = board@;
    let n = board.num_players();
    let mut p: usize = 0;
    assert(b =~~= partial_bumped(b, target, player, pawn as int, whole, 0, 0));
    while p < n
        invariant
            board_shape_ok(b),
            n == b.len(),
            p <= n,
            board@ == partial_bumped(b, target, player, pawn as int, whole, p as int, 0),
            bumps@ == old(bumps)@ + space_bumps(b, target, player, pawn as int, whole, p as int),
        decreases n - p,
    {
        let m = board.pawns_of(PlayerId(p as u8)).len();
        assert(m == b[p as int].len());
        let ghost before = bumps@;
        let mut i: usize = 0;
        while i < m
            invariant
                board_shape_ok(b),
                n == b.len(),
                p < n,
                m == b[p as int].len(),
                i <= m,
                board@ == partial_bumped(b, target, player, pawn as int, whole, p as int, i as int),
                bumps@ == before + row_bumps(b, target, player, pawn as int, whole, p as int, i as int),
            decreases m - i,
        {
            let pid = PlayerId(p as u8);
            let wid = PawnId(i as u8);
            let here = board.position(pid, wid);
            assert(here == b[p as int][i as int]);
            let exempt_here = p == player.0 as usize && (whole || i == pawn as usize);
            if here == target && !exempt_here {
                let start = crate::rules::start_area_id(pid);
                board.set_position(pid, wid, start);
                bumps.push(BumpEvent { player: pid, pawn: wid, from: target, to: start });
            }
            assert(board@ =~~= partial_bumped(b, target, player, pawn as int, whole, p as int, i as int + 1));
            assert(bumps@ =~= before + row_bumps(b, target, player, pawn as int, whole, p as int, i as int + 1));
            i = i + 1;
        }
        assert(board@ =~~= partial_bumped(b, target, player, pawn as int, whole, p as int + 1, 0));
        p = p + 1;
    }
    assert(board@ =~~= bumped_board(b, target, player, pawn as int, whole));
}

proof fn lemma_slide_board_shape(b: Seq<Seq<SpaceId>>, path: Seq<SpaceId>, player: PlayerId, pawn: int, k: int)
    ensures
        same_shape(b, slide_board(b, path, player, pawn, k)),
        board_shape_ok(b) ==> board_shape_ok(slide_board(b, path, player, pawn, k)),
    decreases k,
{
    if k > 0 {
        lemma_slide_board_shape(b, path, player, pawn, k - 1);
        let prev = slide_board(b, path, player, pawn, k - 1);
        lemma_bumped_shape(prev, path[k - 1], player, pawn, false);
    }
}

fn move_pawn(
    rules: &StandardRules,
    board: &mut BoardState,
    player: PlayerId,
    pawn: PawnId,
    to: SpaceId,
    bump_at_destination: bool,
    bumps: &mut Vec<BumpEvent>,
    slides: &mut Vec<SlideEvent>,
)
    requires
        board_shape_ok(old(board)@),
        (player.0 as int) < old(board)@.len(),
        (pawn.0 as int) < old(board)@[player.0 as int].len(),
    ensures
        ({
            let r = spec_move_pawn(old(board)@, player, pawn.0 as int, to, bump_at_destination);
            &&& final(board)@ == r.0
            &&& final(bumps)@ == old(bumps)@ + r.1
            &&& slides_view(final(slides)@) == slides_view(old(slides)@) + r.2
        }),
        same_shape(old(board)@, final(board)@),
{
    let ghost b = board@;
    if bump_at_destination {
        bump_space(board, to, player, pawn.0, true, bumps);
        proof {
            lemma_bumped_shape(b, to, player, pawn.0 as int, true);
        }
    }
    let ghost b1 = board@;
    board.set_position(player, pawn, to);
    let ghost b2 = board@;
    proof {
        lemma_set_shape(b1, player.0 as int, pawn.0 as int, to);
    }
    assert(same_shape(b, b2));
    match rules.slide_destination(to, player) {
        Some(path) => {
            let ghost bumps_before = bumps@;
            let ghost pseq = path.traversed@;
            let mut k: usize = 0;
            while k < path.traversed.len()
                invariant
                    board_shape_ok(b2),
                    same_shape(b, b2),
                    (player.0 as int) < b2.len(),
                    pseq == path.traversed@,
                    k <= pseq.len(),
                    board@ == slide_board(b2, pseq, player, pawn.0 as int, k as int),
                    bumps@ == bumps_before + slide_bumps(b2, pseq, player, pawn.0 as int, k as int),
                decreases pseq.len() - k,
            {
                proof {
                    lemma_slide_board_shape(b2, pseq, player, pawn.0 as int, k as int);
                }
                bump_space(board, path.traversed[k], player, pawn.0, false, bumps);
                k = k + 1;
            }
            proof {
                lemma_slide_board_shape(b2, pseq, player, pawn.0 as int, pseq.len() as int);
            }
            let end = path.end;
            let ghost b3 = board@;
            board.set_position(player, pawn, end);
            proof {
                lemma_set_shape(b3, player.0 as int, pawn.0 as int, end);
            }
            let ghost old_slides = slides@;
            slides.push(SlideEvent { player, pawn, from: to, to: end, path: path.traversed });
            assert(slides_view(slides@) =~= slides_view(old_slides) + seq![
                SlideRecord { player, pawn: PawnId(pawn.0 as u8), from: to, to: end, path: pseq },
            ]);
        },
        None => {
            assert(bumps@ =~= bumps@ + Seq::<BumpEvent>::empty());
            assert(slides_view(slides@) =~= slides_view(slides@) + Seq::<SlideRecord>::empty());
        },
    }
}

/// Applies `mv` for `player`; returns the bumps and slides it caused.
pub fn apply_move(rules: &StandardRules, board: &mut BoardState, player: PlayerId, mv: &Move) -> (r: (
    Vec<BumpEvent>,
    Vec<SlideEvent>,
))
    requires
        apply_ok(old(board)@, player, *mv),
    ensures
        ({
            let s = spec_apply_move(old(board)@, player, *mv);
            &&& final(board)@ == s.0
            &&& r.0@ == s.1
            &&& slides_view(r.1@) == s.2
        }),
        same_shape(old(board)@, final(board)@),
{
    let mut bumps: Vec<BumpEvent> = Vec::new();
    let mut slides: Vec<SlideEvent> = Vec::new();
    let ghost b = board@;
    match *mv {
        Move::Pass => {},
        Move::Advance { pawn, to, .. } => {
            move_pawn(rules, board, player, pawn, to, true, &mut bumps, &mut slides);
        },
        Move::Retreat { pawn, to, .. } => {
            move_pawn(rules, board, player, pawn, to, true, &mut bumps, &mut slides);
        },
        Move::StartPawn { pawn, to } => {
            move_pawn(rules, board, player, pawn, to, true, &mut bumps, &mut slides);
        },
        Move::SplitSeven { first, second } => {
            move_pawn(rules, board, player, first.pawn, first.to, true, &mut bumps, &mut slides);
            move_pawn(rules, board, player, second.pawn, second.to, true, &mut bumps, &mut slides);
        },
        Move::SwapEleven { my_pawn, their_player, their_pawn } => {
            let my_space = board.position(player, my_pawn);
            let their_space = board.position(their_player, their_pawn);
            board.set_position(player, my_pawn, their_space);
            proof {
                lemma_set_shape(b, player.0 as int, my_pawn.0 as int, their_space);
            }
            let ghost b1 = board@;
            board.set_position(their_player, their_pawn, my_space);
            proof {
                lemma_set_shape(b1, their_player.0 as int, their_pawn.0 as int, my_space);
            }
        },
        Move::Sorry { my_pawn, their_player, their_pawn, to } => {
            let their_from = board.position(their_player, their_pawn);
            let their_start = rules.start_area(their_player);
            board.set_position(their_player, their_pawn, their_start);
            proof {
                lemma_set_shape(b, their_player.0 as int, their_pawn.0 as int, their_start);
            }
            bumps.push(BumpEvent { player: their_player, pawn: their_pawn, from: their_from, to: their_start });
            move_pawn(rules, board, player, my_pawn, to, false, &mut bumps, &mut slides);
        },
    }
    assert(slides_view(slides@) =~= spec_apply_move(b, player, *mv).2);
    (bumps, slides)
}

} // verus!
