//! Moves and legal-move generation.
//!
//! Generation enforces the "cannot land on your own pawn" rule at the
//! step-count destination (Home excepted, where pawns stack). Slide-triggered
//! bumps, own pawns included, are a consequence of a legal move and happen
//! when the move is applied, not here.

use crate::board::{BoardState, PawnId, PlayerId, Space, SpaceId, board_shape_ok};
use crate::card::Card;
use crate::rules::{
    StandardRules, classify, is_home_space, is_track, spec_backward, spec_backward_steps,
    spec_classify, spec_forward, spec_forward_steps, spec_split_total, spec_start_area_id,
    spec_start_exit, spec_start_pawn_advance,
};
use vstd::prelude::*;

verus! {

/// One leg of a split Seven.
#[derive(Debug, Clone, Copy, PartialEq, Eq, Structural)]
pub struct SplitLeg {
    pub pawn: PawnId,
    pub steps: u8,
    pub to: SpaceId,
}

#[derive(Debug, Clone, Copy, PartialEq, Eq, Structural)]
pub enum Move {
    /// Move a pawn forward `card_value` steps; `to` is the step-count
    /// destination before any slide.
    Advance { pawn: PawnId, card_value: i8, to: SpaceId },
    /// Move a pawn backward (a 4, or a 10 used as back-1).
    Retreat { pawn: PawnId, card_value: i8, to: SpaceId },
    /// A 7 split across two distinct pawns; the legs are non-zero and sum to 7.
    SplitSeven { first: SplitLeg, second: SplitLeg },
    /// An 11 used to swap with an opponent pawn on the outer track.
    SwapEleven { my_pawn: PawnId, their_player: PlayerId, their_pawn: PawnId },
    /// Start a pawn from the Start area (a 1 or a 2).
    StartPawn { pawn: PawnId, to: SpaceId },
    /// Sorry card: a Start pawn takes an opponent's track space, sending the
    /// opponent back to its Start area.
    Sorry { my_pawn: PawnId, their_player: PlayerId, their_pawn: PawnId, to: SpaceId },
    /// No move is made with the drawn card.
    Pass,
}

/// SplitLeg constructor.
pub fn leg(pawn: PawnId, steps: u8, to: SpaceId) -> (r: SplitLeg)
    ensures
        r == (SplitLeg { pawn, steps, to }),
{
    SplitLeg { pawn, steps, to }
}

// ─── Specification of legal-move generation ─────────────────────────────

/// The board fits the rules: seat `player` exists and every seat holds at
/// least the four pawns the rules move.
pub open spec fn moves_board_ok(b: Seq<Seq<SpaceId>>, player: PlayerId) -> bool {
    &&& board_shape_ok(b)
    &&& (player.0 as int) < b.len()
    &&& forall|p: int| 0 <= p < b.len() ==> #[trigger] b[p].len() >= 4
}

pub open spec fn own_at(b: Seq<Seq<SpaceId>>, player: PlayerId, s: SpaceId) -> bool {
    b[player.0 as int].contains(s)
}

/// A pawn of `player` may finish a move on `to`.
pub open spec fn landable(b: Seq<Seq<SpaceId>>, player: PlayerId, to: SpaceId) -> bool {
    is_home_space(to) || !own_at(b, player, to)
}

/// A pawn of `player` on `from` may take steps.
pub open spec fn can_step_from(from: SpaceId, player: PlayerId) -> bool {
    match spec_classify(from) {
        Some(Space::Track(_)) => true,
        Some(Space::Safety(owner, _)) => owner == player,
        _ => false,
    }
}

/// `k` single steps from `from`, forward or backward, if each exists.
pub open spec fn walk_n(from: SpaceId, player: PlayerId, k: nat, fwd: bool) -> Option<SpaceId>
    decreases k,
{
    if k == 0 {
        Some(from)
    } else {
        let next = if fwd {
            spec_forward(from, player)
        } else {
            spec_backward(from, player)
        };
        match next {
            Some(n) => walk_n(n, player, (k - 1) as nat, fwd),
            None => None,
        }
    }
}

/// A walk of `steps` steps; non-positive counts go nowhere.
pub open spec fn walk(from: SpaceId, player: PlayerId, steps: int, fwd: bool) -> Option<SpaceId> {
    if steps <= 0 {
        None
    } else {
        walk_n(from, player, steps as nat, fwd)
    }
}

/// Where a pawn leaving Start lands after `k` more forward steps from `cur`,
/// provided no own pawn stands on any space of the way (landing included).
pub open spec fn start_target(b: Seq<Seq<SpaceId>>, player: PlayerId, cur: SpaceId, k: nat) -> Option<SpaceId>
    decreases k,
{
    if own_at(b, player, cur) {
        None
    } else if k == 0 {
        Some(cur)
    } else {
        match spec_forward(cur, player) {
            Some(n) => start_target(b, player, n, (k - 1) as nat),
            None => None,
        }
    }
}

/// The lowest pawn index in `i..4` whose space is `sa`.
pub open spec fn first_start_pawn(row: Seq<SpaceId>, sa: SpaceId, i: int) -> Option<int>
    decreases 4 - i,
{
    if i >= 4 {
        None
    } else if row[i] == sa {
        Some(i)
    } else {
        first_start_pawn(row, sa, i + 1)
    }
}

pub open spec fn opt_seq(o: Option<Move>) -> Seq<Move> {
    match o {
        Some(m) => seq![m],
        None => Seq::empty(),
    }
}

pub open spec fn start_section(b: Seq<Seq<SpaceId>>, player: PlayerId, card: Card) -> Seq<Move> {
    match spec_start_pawn_advance(card) {
        None => Seq::empty(),
        Some(extra) => match start_target(b, player, spec_start_exit(player), extra as nat) {
            None => Seq::empty(),
            Some(t) => match first_start_pawn(b[player.0 as int], spec_start_area_id(player), 0) {
                Some(i) => seq![Move::StartPawn { pawn: PawnId(i as u8), to: t }],
                None => Seq::empty(),
            },
        },
    }
}

/// The plain forward (or backward) move of pawn `pw` by `n`, if legal.
pub open spec fn step_move(b: Seq<Seq<SpaceId>>, player: PlayerId, pw: int, n: i8, fwd: bool) -> Option<Move> {
    let from = b[player.0 as int][pw];
    if !can_step_from(from, player) {
        None
    } else {
        match walk(from, player, n as int, fwd) {
            Some(to) => if landable(b, player, to) {
                if fwd {
                    Some(Move::Advance { pawn: PawnId(pw as u8), card_value: n, to })
                } else {
                    Some(Move::Retreat { pawn: PawnId(pw as u8), card_value: n, to })
                }
            } else {
                None
            },
            None => None,
        }
    }
}

pub open spec fn step_section(b: Seq<Seq<SpaceId>>, player: PlayerId, n: i8, fwd: bool, k: int) -> Seq<Move>
    decreases k,
{
    if k <= 0 {
        Seq::empty()
    } else {
        step_section(b, player, n, fwd, k - 1) + opt_seq(step_move(b, player, k - 1, n, fwd))
    }
}

pub open spec fn advance_section(b: Seq<Seq<SpaceId>>, player: PlayerId, card: Card) -> Seq<Move> {
    match spec_forward_steps(card) {
        Some(n) => step_section(b, player, n, true, 4),
        None => Seq::empty(),
    }
}

pub open spec fn retreat_section(b: Seq<Seq<SpaceId>>, player: PlayerId, card: Card) -> Seq<Move> {
    match spec_backward_steps(card) {
        Some(n) => step_section(b, player, n, false, 4),
        None => Seq::empty(),
    }
}

/// The 7 split sending pawn `pa` `a` steps and pawn `pb` `c` steps, if legal.
pub open spec fn split_move(b: Seq<Seq<SpaceId>>, player: PlayerId, a: int, c: int, pa: int, pb: int) -> Option<Move> {
    let from_a = b[player.0 as int][pa];
    let from_b = b[player.0 as int][pb];
    if pa == pb {
        None
    } else if !can_step_from(from_a, player) || !can_step_from(from_b, player) {
        None
    } else {
        match (walk(from_a, player, a, true), walk(from_b, player, c, true)) {
            (Some(to_a), Some(to_b)) => if !landable(b, player, to_a) || !landable(b, player, to_b) {
                None
            } else if to_a == to_b && !is_home_space(to_a) {
                None
            } else {
                Some(
                    Move::SplitSeven {
                        first: SplitLeg { pawn: PawnId(pa as u8), steps: a as u8, to: to_a },
                        second: SplitLeg { pawn: PawnId(pb as u8), steps: c as u8, to: to_b },
                    },
                )
            },
            _ => None,
        }
    }
}

pub open spec fn split_inner(b: Seq<Seq<SpaceId>>, player: PlayerId, a: int, c: int, pa: int, k: int) -> Seq<Move>
    decreases k,
{
    if k <= 0 {
        Seq::empty()
    } else {
        split_inner(b, player, a, c, pa, k - 1) + opt_seq(split_move(b, player, a, c, pa, k - 1))
    }
}

pub open spec fn split_mid(b: Seq<Seq<SpaceId>>, player: PlayerId, a: int, c: int, k: int) -> Seq<Move>
    decreases k,
{
    if k <= 0 {
        Seq::empty()
    } else {
        split_mid(b, player, a, c, k - 1) + split_inner(b, player, a, c, k - 1, 4)
    }
}

/// Splits whose first leg takes `1..k` steps of `total`.
pub open spec fn split_outer(b: Seq<Seq<SpaceId>>, player: PlayerId, total: int, k: int) -> Seq<Move>
    decreases k,
{
    if k <= 1 {
        Seq::empty()
    } else {
        split_outer(b, player, total, k - 1) + split_mid(b, player, k - 1, total - (k - 1), 4)
    }
}

pub open spec fn split_section(b: Seq<Seq<SpaceId>>, player: PlayerId, card: Card) -> Seq<Move> {
    match spec_split_total(card) {
        Some(t) => split_outer(b, player, t as int, t as int),
        None => Seq::empty(),
    }
}

pub open spec fn swap_inner(b: Seq<Seq<SpaceId>>, player: PlayerId, pw: int, other: int, k: int) -> Seq<Move>
    decreases k,
{
    if k <= 0 {
        Seq::empty()
    } else {
        swap_inner(b, player, pw, other, k - 1) + if is_track(b[other][k - 1]) {
            seq![
                Move::SwapEleven {
                    my_pawn: PawnId(pw as u8),
                    their_player: PlayerId(other as u8),
                    their_pawn: PawnId((k - 1) as u8),
                },
            ]
        } else {
            Seq::empty()
        }
    }
}

pub open spec fn swap_mid(b: Seq<Seq<SpaceId>>, player: PlayerId, pw: int, k: int) -> Seq<Move>
    decreases k,
{
    if k <= 0 {
        Seq::empty()
    } else {
        swap_mid(b, player, pw, k - 1) + if k - 1 == player.0 {
            Seq::empty()
        } else {
            swap_inner(b, player, pw, k - 1, 4)
        }
    }
}

pub open spec fn swap_outer(b: Seq<Seq<SpaceId>>, player: PlayerId, k: int) -> Seq<Move>
    decreases k,
{
    if k <= 0 {
        Seq::empty()
    } else {
        swap_outer(b, player, k - 1) + if is_track(b[player.0 as int][k - 1]) {
            swap_mid(b, player, k - 1, b.len() as int)
        } else {
            Seq::empty()
        }
    }
}

pub open spec fn swap_section(b: Seq<Seq<SpaceId>>, player: PlayerId, card: Card) -> Seq<Move> {
    if card == Card::Eleven {
        swap_outer(b, player, 4)
    } else {
        Seq::empty()
    }
}

pub open spec fn sorry_inner(b: Seq<Seq<SpaceId>>, player: PlayerId, my: int, other: int, k: int) -> Seq<Move>
    decreases k,
{
    if k <= 0 {
        Seq::empty()
    } else {
        sorry_inner(b, player, my, other, k - 1) + if is_track(b[other][k - 1]) {
            seq![
                Move::Sorry {
                    my_pawn: PawnId(my as u8),
                    their_player: PlayerId(other as u8),
                    their_pawn: PawnId((k - 1) as u8),
                    to: b[other][k - 1],
                },
            ]
        } else {
            Seq::empty()
        }
    }
}

pub open spec fn sorry_mid(b: Seq<Seq<SpaceId>>, player: PlayerId, my: int, k: int) -> Seq<Move>
    decreases k,
{
    if k <= 0 {
        Seq::empty()
    } else {
        sorry_mid(b, player, my, k - 1) + if k - 1 == player.0 {
            Seq::empty()
        } else {
            sorry_inner(b, player, my, k - 1, 4)
        }
    }
}

pub open spec fn sorry_section(b: Seq<Seq<SpaceId>>, player: PlayerId, card: Card) -> Seq<Move> {
    if card == Card::Sorry {
        match first_start_pawn(b[player.0 as int], spec_start_area_id(player), 0) {
            Some(i) => sorry_mid(b, player, i, b.len() as int),
            None => Seq::empty(),
        }
    } else {
        Seq::empty()
    }
}

pub open spec fn has_advance(s: Seq<Move>) -> bool {
    exists|i: int| 0 <= i < s.len() && #[trigger] s[i] is Advance
}

/// Every move of every kind, before the Pass rules.
pub open spec fn candidate_moves(b: Seq<Seq<SpaceId>>, player: PlayerId, card: Card) -> Seq<Move> {
    start_section(b, player, card) + advance_section(b, player, card) + retreat_section(b, player, card)
        + split_section(b, player, card) + swap_section(b, player, card) + sorry_section(b, player, card)
}

/// The legal moves of `player` holding `card` on board `b`, in generation
/// order. An 11 that cannot move forward may be declined (Pass), and a card
/// with no move at all forfeits the turn (Pass).
pub open spec fn spec_legal_moves(b: Seq<Seq<SpaceId>>, player: PlayerId, card: Card) -> Seq<Move> {
    let base = candidate_moves(b, player, card);
    let with_pass = if card == Card::Eleven && !has_advance(base) {
        base.push(Move::Pass)
    } else {
        base
    };
    if with_pass.len() == 0 {
        seq![Move::Pass]
    } else {
        with_pass
    }
}

// ─── Executable generation ──────────────────────────────────────────────

fn is_own_pawn_at(board: &BoardState, player: PlayerId, space: SpaceId) -> (r: bool)
    requires
        (player.0 as int) < board@.len(),
    ensures
        r == own_at(board@, player, space),
{
    let row = board.pawns_of(player);
    let mut i: usize = 0;
    while i < row.len()
        invariant
            row@ == board@[player.0 as int],
            i <= row@.len(),
            forall|k: int| 0 <= k < i ==> row@[k] != space,
        decreases row@.len() - i,
    {
        if row[i] == space {
            return true;
        }
        i = i + 1;
    }
    false
}

fn can_step(from: SpaceId, player: PlayerId) -> (r: bool)
    ensures
        r == can_step_from(from, player),
{
    match classify(from) {
        Some(Space::Track(_)) => true,
        Some(Space::Safety(owner, _)) => owner == player,
        _ => false,
    }
}

fn on_outer_track(space: SpaceId) -> (r: bool)
    ensures
        r == is_track(space),
{
    match classify(space) {
        Some(Space::Track(_)) => true,
        _ => false,
    }
}

fn is_landable(board: &BoardState, player: PlayerId, to: SpaceId) -> (r: bool)
    requires
        (player.0 as int) < board@.len(),
    ensures
        r == landable(board@, player, to),
{
    match classify(to) {
        Some(Space::Home(_)) => true,
        _ => !is_own_pawn_at(board, player, to),
    }
}

fn walk_steps(rules: &StandardRules, player: PlayerId, from: SpaceId, steps: i8, fwd: bool) -> (r: Option<SpaceId>)
    ensures
        r == walk(from, player, steps as int, fwd),
{
    if steps <= 0 {
        return None;
    }
    let mut cur = from;
    let mut i: i8 = 0;
    while i < steps
        invariant
            0 <= i <= steps,
            walk_n(from, player, steps as nat, fwd) == walk_n(cur, player, (steps - i) as nat, fwd),
        decreases steps - i,
    {
        let next = if fwd {
            rules.forward_neighbor(cur, player)
        } else {
            rules.backward_neighbor(cur, player)
        };
        match next {
            Some(n) => {
                cur = n;
            },
            None => {
                return None;
            },
        }
        i = i + 1;
    }
    Some(cur)
}

fn first_pawn_in_start(board: &BoardState, player: PlayerId, start_area: SpaceId) -> (r: Option<u8>)
    requires
        moves_board_ok(board@, player),
    ensures
        r matches Some(i) ==> i < 4 && first_start_pawn(board@[player.0 as int], start_area, 0) == Some(i as int),
        r is None ==> first_start_pawn(board@[player.0 as int], start_area, 0) is None,
{
    let ghost row = board@[player.0 as int];
    let mut pw: u8 = 0;
    while pw < 4
        invariant
            moves_board_ok(board@, player),
            row == board@[player.0 as int],
            pw <= 4,
            first_start_pawn(row, start_area, 0) == first_start_pawn(row, start_area, pw as int),
        decreases 4 - pw,
    {
        if board.position(player, PawnId(pw)) == start_area {
            return Some(pw);
        }
        pw = pw + 1;
    }
    None
}

fn push_start_moves(rules: &StandardRules, board: &BoardState, player: PlayerId, card: Card, out: &mut Vec<Move>)
    requires
        moves_board_ok(board@, player),
    ensures
        final(out)@ == old(out)@ + start_section(board@, player, card),
{
    let extra = match rules.start_pawn_advance(card) {
        Some(e) => e,
        None => return ,
    };
    let start_exit = rules.start_exit(player);
    let mut target = start_exit;
    let mut path_clear = !is_own_pawn_at(board, player, target);
    let mut i: u32 = 0;
    while i < extra && path_clear
        invariant
            moves_board_ok(board@, player),
            i <= extra,
            path_clear ==> start_target(board@, player, start_exit, extra as nat) == start_target(
                board@,
                player,
                target,
                (extra - i) as nat,
            ),
            path_clear ==> !own_at(board@, player, target),
            !path_clear ==> start_target(board@, player, start_exit, extra as nat) is None,
        decreases extra - i,
    {
        match rules.forward_neighbor(target, player) {
            Some(next) => {
                target = next;
                if is_own_pawn_at(board, player, target) {
                    path_clear = false;
                }
            },
            None => {
                path_clear = false;
            },
        }
        i = i + 1;
    }
    if path_clear {
        let start_area = rules.start_area(player);
        match first_pawn_in_start(board, player, start_area) {
            Some(pw) => {
                out.push(Move::StartPawn { pawn: PawnId(pw), to: target });
            },
            None => {},
        }
    }
    assert(out@ =~= old(out)@ + start_section(board@, player, card));
}

fn push_step_moves(rules: &StandardRules, board: &BoardState, player: PlayerId, n: i8, fwd: bool, out: &mut Vec<Move>)
    requires
        moves_board_ok(board@, player),
    ensures
        final(out)@ == old(out)@ + step_section(board@, player, n, fwd, 4),
{
    let mut pw: u8 = 0;
    while pw < 4
        invariant
            moves_board_ok(board@, player),
            pw <= 4,
            out@ == old(out)@ + step_section(board@, player, n, fwd, pw as int),
        decreases 4 - pw,
    {
        let ghost before = out@;
        let pawn = PawnId(pw);
        let from = board.position(player, pawn);
        if can_step(from, player) {
            match walk_steps(rules, player, from, n, fwd) {
                Some(to) => {
                    if is_landable(board, player, to) {
                        if fwd {
                            out.push(Move::Advance { pawn, card_value: n, to });
                        } else {
                            out.push(Move::Retreat { pawn, card_value: n, to });
                        }
                    }
                },
                None => {},
            }
        }
        assert(step_section(board@, player, n, fwd, pw as int + 1) == step_section(
            board@,
            player,
            n,
            fwd,
            pw as int,
        ) + opt_seq(step_move(board@, player, pw as int, n, fwd)));
        assert(out@ =~= before + opt_seq(step_move(board@, player, pw as int, n, fwd)));
        pw = pw + 1;
    }
}

fn split_one(rules: &StandardRules, board: &BoardState, player: PlayerId, a: u8, c: u8, pa: u8, pb: u8) -> (r: Option<Move>)
    requires
        moves_board_ok(board@, player),
        pa < 4,
        pb < 4,
        0 < a < 8,
        0 < c < 8,
    ensures
        r == split_move(board@, player, a as int, c as int, pa as int, pb as int),
{
    if pa == pb {
        return None;
    }
    let pawn_a = PawnId(pa);
    let pawn_b = PawnId(pb);
    let from_a = board.position(player, pawn_a);
    let from_b = board.position(player, pawn_b);
    if !can_step(from_a, player) || !can_step(from_b, player) {
        return None;
    }
    let to_a = match walk_steps(rules, player, from_a, a as i8, true) {
        Some(t) => t,
        None => return None,
    };
    let to_b = match walk_steps(rules, player, from_b, c as i8, true) {
        Some(t) => t,
        None => return None,
    };
    if !is_landable(board, player, to_a) || !is_landable(board, player, to_b) {
        return None;
    }
    if to_a == to_b {
        match classify(to_a) {
            Some(Space::Home(_)) => {},
            _ => return None,
        }
    }
    Some(
        Move::SplitSeven {
            first: SplitLeg { pawn: pawn_a, steps: a, to: to_a },
            second: SplitLeg { pawn: pawn_b, steps: c, to: to_b },
        },
    )
}

fn push_split_moves(rules: &StandardRules, board: &BoardState, player: PlayerId, card: Card, out: &mut Vec<Move>)
    requires
        moves_board_ok(board@, player),
    ensures
        final(out)@ == old(out)@ + split_section(board@, player, card),
{
    let total = match (rules.can_split(card), rules.split_total(card)) {
        (true, Some(t)) => t,
        _ => return ,
    };
    assert(total == 7);
    let mut a: u8 = 1;
    while a < total
        invariant
            moves_board_ok(board@, player),
            total == 7,
            1 <= a <= total,
            out@ == old(out)@ + split_outer(board@, player, 7, a as int),
        decreases total - a,
    {
        let c = total - a;
        let ghost before_a = out@;
        let mut pa: u8 = 0;
        while pa < 4
            invariant
                moves_board_ok(board@, player),
                total == 7,
                1 <= a < total,
                c == total - a,
                pa <= 4,
                out@ == before_a + split_mid(board@, player, a as int, c as int, pa as int),
            decreases 4 - pa,
        {
            let ghost before_pa = out@;
            let mut pb: u8 = 0;
            while pb < 4
                invariant
                    moves_board_ok(board@, player),
                    1 <= a < 7,
                    c == 7 - a,
                    pa < 4,
                    pb <= 4,
                    out@ == before_pa + split_inner(board@, player, a as int, c as int, pa as int, pb as int),
                decreases 4 - pb,
            {
                let ghost before_pb = out@;
                match split_one(rules, board, player, a, c, pa, pb) {
                    Some(m) => out.push(m),
                    None => {},
                }
                assert(out@ =~= before_pb + opt_seq(
                    split_move(board@, player, a as int, c as int, pa as int, pb as int),
                ));
                pb = pb + 1;
            }
            assert(split_mid(board@, player, a as int, c as int, pa as int + 1) == split_mid(
                board@,
                player,
                a as int,
                c as int,
                pa as int,
            ) + split_inner(board@, player, a as int, c as int, pa as int, 4));
            pa = pa + 1;
        }
        assert(split_outer(board@, player, 7, a as int + 1) == split_outer(board@, player, 7, a as int)
            + split_mid(board@, player, a as int, 7 - a, 4));
        a = a + 1;
    }
}

fn push_swap_moves(board: &BoardState, player: PlayerId, out: &mut Vec<Move>)
    requires
        moves_board_ok(board@, player),
    ensures
        final(out)@ == old(out)@ + swap_outer(board@, player, 4),
{
    let n = board.num_players();
    let mut pw: u8 = 0;
    while pw < 4
        invariant
            moves_board_ok(board@, player),
            n == board@.len(),
            pw <= 4,
            out@ == old(out)@ + swap_outer(board@, player, pw as int),
        decreases 4 - pw,
    {
        let ghost before_pw = out@;
        let my_pawn = PawnId(pw);
        let from = board.position(player, my_pawn);
        if on_outer_track(from) {
            let mut other: u8 = 0;
            while (other as usize) < n
                invariant
                    moves_board_ok(board@, player),
                    n == board@.len(),
                    pw < 4,
                    my_pawn == PawnId(pw),
                    other as int <= n,
                    out@ == before_pw + swap_mid(board@, player, pw as int, other as int),
                decreases n - other as int,
            {
                let ghost before_o = out@;
                if other != player.0 {
                    let their_player = PlayerId(other);
                    let mut opw: u8 = 0;
                    while opw < 4
                        invariant
                            moves_board_ok(board@, player),
                            n == board@.len(),
                            pw < 4,
                            my_pawn == PawnId(pw),
                            (other as int) < n,
                            opw <= 4,
                            their_player == PlayerId(other),
                            out@ == before_o + swap_inner(board@, player, pw as int, other as int, opw as int),
                        decreases 4 - opw,
                    {
                        let their_pawn = PawnId(opw);
                        let their_pos = board.position(their_player, their_pawn);
                        if on_outer_track(their_pos) {
                            out.push(Move::SwapEleven { my_pawn, their_player, their_pawn });
                        }
                        assert(my_pawn == PawnId((pw as int) as u8));
                        assert(their_player == PlayerId((other as int) as u8));
                        assert(their_pawn == PawnId(((opw as int + 1) - 1) as u8));
                        assert(swap_inner(board@, player, pw as int, other as int, opw as int + 1)
                            == swap_inner(board@, player, pw as int, other as int, opw as int) + if is_track(
                            board@[other as int][opw as int],
                        ) {
                            seq![Move::SwapEleven { my_pawn, their_player, their_pawn }]
                        } else {
                            Seq::empty()
                        });
                        assert(out@ =~= before_o + swap_inner(
                            board@,
                            player,
                            pw as int,
                            other as int,
                            opw as int + 1,
                        ));
                        opw = opw + 1;
                    }
                }
                assert(out@ =~= before_pw + swap_mid(board@, player, pw as int, other as int + 1));
                other = other + 1;
            }
        }
        assert(out@ =~= old(out)@ + swap_outer(board@, player, pw as int + 1));
        pw = pw + 1;
    }
}

fn push_sorry_moves(rules: &StandardRules, board: &BoardState, player: PlayerId, out: &mut Vec<Move>)
    requires
        moves_board_ok(board@, player),
    ensures
        final(out)@ == old(out)@ + sorry_section(board@, player, Card::Sorry),
{
    let start_area = rules.start_area(player);
    let my = match first_pawn_in_start(board, player, start_area) {
        Some(i) => i,
        None => return ,
    };
    let my_pawn = PawnId(my);
    let n = board.num_players();
    let mut other: u8 = 0;
    while (other as usize) < n
        invariant
            moves_board_ok(board@, player),
            n == board@.len(),
            my < 4,
            my_pawn == PawnId(my),
            other as int <= n,
            out@ == old(out)@ + sorry_mid(board@, player, my as int, other as int),
        decreases n - other as int,
    {
        let ghost before_o = out@;
        if other != player.0 {
            let their_player = PlayerId(other);
            let mut opw: u8 = 0;
            while opw < 4
                invariant
                    moves_board_ok(board@, player),
                    n == board@.len(),
                    my < 4,
                    my_pawn == PawnId(my),
                    (other as int) < n,
                    opw <= 4,
                    their_player == PlayerId(other),
                    out@ == before_o + sorry_inner(board@, player, my as int, other as int, opw as int),
                decreases 4 - opw,
            {
                let their_pawn = PawnId(opw);
                let their_pos = board.position(their_player, their_pawn);
                if on_outer_track(their_pos) {
                    out.push(Move::Sorry { my_pawn, their_player, their_pawn, to: their_pos });
                }
                assert(out@ =~= before_o + sorry_inner(
                    board@,
                    player,
                    my as int,
                    other as int,
                    opw as int + 1,
                ));
                opw = opw + 1;
            }
        }
        assert(out@ =~= old(out)@ + sorry_mid(board@, player, my as int, other as int + 1));
        other = other + 1;
    }
}

fn contains_advance(moves: &Vec<Move>) -> (r: bool)
    ensures
        r == has_advance(moves@),
{
    let mut i: usize = 0;
    while i < moves.len()
        invariant
            i <= moves@.len(),
            forall|k: int| 0 <= k < i ==> !(#[trigger] moves@[k] is Advance),
        decreases moves@.len() - i,
    {
        match moves[i] {
            Move::Advance { .. } => return true,
            _ => {},
        }
        i = i + 1;
    }
    false
}

/// Every legal move of `player` for `card`, exactly `spec_legal_moves`.
pub fn legal_moves(rules: &StandardRules, board: &BoardState, player: PlayerId, card: Card) -> (r: Vec<Move>)
    requires
        moves_board_ok(board@, player),
    ensures
        r@ == spec_legal_moves(board@, player, card),
{
    let mut out: Vec<Move> = Vec::new();
    push_start_moves(rules, board, player, card, &mut out);
    match rules.forward_steps(card) {
        Some(n) => push_step_moves(rules, board, player, n, true, &mut out),
        None => {},
    }
    match rules.backward_steps(card) {
        Some(n) => push_step_moves(rules, board, player, n, false, &mut out),
        None => {},
    }
    push_split_moves(rules, board, player, card, &mut out);
    if rules.is_swap(card) {
        push_swap_moves(board, player, &mut out);
    }
    if rules.is_sorry(card) {
        push_sorry_moves(rules, board, player, &mut out);
    }
    assert(out@ =~= candidate_moves(board@, player, card));
    if rules.is_swap(card) && !contains_advance(&out) {
        out.push(Move::Pass);
    }
    if out.len() == 0 {
        out.push(Move::Pass);
    }
    assert(out@ =~= spec_legal_moves(board@, player, card));
    out
}

/// Whether `mv` is one of `legal`.
pub fn contains_move(legal: &Vec<Move>, mv: &Move) -> (r: bool)
    ensures
        r == legal@.contains(*mv),
{
    let mut i: usize = 0;
    while i < legal.len()
        invariant
            i <= legal@.len(),
            forall|k: int| 0 <= k < i ==> legal@[k] != *mv,
        decreases legal@.len() - i,
    {
        if legal[i] == *mv {
            return true;
        }
        i = i + 1;
    }
    false
}

} // verus!
