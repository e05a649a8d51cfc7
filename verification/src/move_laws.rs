//! Properties every generated move set has, proved from `spec_legal_moves`.

use crate::apply::{
    BumpEvent, SlideRecord, apply_ok, is_start_id, lemma_split_effect, move_slots_ok, names_pawn, resting_space,
    same_shape, spec_apply_move, start_of,
};
use crate::board::{PawnId, PlayerId, SpaceId};
use crate::card::Card;
use crate::moves::{
    walk_n,
    Move, SplitLeg, advance_section, can_step_from, walk, candidate_moves, first_start_pawn, has_advance, landable,
    moves_board_ok, opt_seq, own_at, retreat_section, sorry_inner, sorry_mid, sorry_section,
    spec_legal_moves, split_inner, split_mid, split_move, split_outer, split_section,
    start_section, start_target, step_move, step_section, swap_inner, swap_mid, swap_outer,
    swap_section,
};
use crate::rules::{
    is_home_space, is_track, spec_backward, spec_backward_steps, spec_forward, spec_forward_steps, spec_start_area_id,
};
use vstd::prelude::*;

verus! {

/// A non-Pass move that obeys the movement rules for `player` holding
/// `card` on `b`. A forward (backward) move takes a pawn that may step (on
/// the outer track or in its own Safety zone) exactly the card's forward
/// (backward) count along the player's path. A pawn leaves Start only from
/// the Start area. A split 7 moves two distinct stepping pawns by non-zero
/// amounts summing to 7, each leg reached by its own steps, and the two
/// legs end apart unless both reach Home. An 11-swap trades one of the
/// player's track pawns with another player's track pawn. A Sorry sends a
/// pawn from Start onto another player's track pawn. No destination holds
/// one of the player's own pawns, Home excepted.
pub open spec fn rule_abiding(b: Seq<Seq<SpaceId>>, player: PlayerId, card: Card, m: Move) -> bool {
    let row = b[player.0 as int];
    match m {
        Move::Advance { pawn, card_value, to } => {
            &&& pawn.0 < 4
            &&& landable(b, player, to)
            &&& spec_forward_steps(card) == Some(card_value)
            &&& can_step_from(row[pawn.0 as int], player)
            &&& walk(row[pawn.0 as int], player, card_value as int, true) == Some(to)
        },
        Move::Retreat { pawn, card_value, to } => {
            &&& pawn.0 < 4
            &&& landable(b, player, to)
            &&& spec_backward_steps(card) == Some(card_value)
            &&& can_step_from(row[pawn.0 as int], player)
            &&& walk(row[pawn.0 as int], player, card_value as int, false) == Some(to)
        },
        Move::StartPawn { pawn, to } => {
            &&& pawn.0 < 4
            &&& landable(b, player, to)
            &&& row[pawn.0 as int] == spec_start_area_id(player)
        },
        Move::SplitSeven { first, second } => {
            &&& card == Card::Seven
            &&& first.pawn.0 < 4
            &&& second.pawn.0 < 4
            &&& landable(b, player, first.to)
            &&& landable(b, player, second.to)
            &&& first.pawn != second.pawn
            &&& first.steps >= 1
            &&& second.steps >= 1
            &&& first.steps + second.steps == 7
            &&& can_step_from(row[first.pawn.0 as int], player)
            &&& can_step_from(row[second.pawn.0 as int], player)
            &&& walk(row[first.pawn.0 as int], player, first.steps as int, true) == Some(first.to)
            &&& walk(row[second.pawn.0 as int], player, second.steps as int, true) == Some(second.to)
            &&& first.to != second.to || is_home_space(first.to)
        },
        Move::SwapEleven { my_pawn, their_player, their_pawn } => {
            &&& card == Card::Eleven
            &&& my_pawn.0 < 4
            &&& is_track(row[my_pawn.0 as int])
            &&& their_player != player
            &&& (their_player.0 as int) < b.len()
            &&& (their_pawn.0 as int) < 4
            &&& is_track(b[their_player.0 as int][their_pawn.0 as int])
        },
        Move::Sorry { my_pawn, their_player, their_pawn, to } => {
            &&& card == Card::Sorry
            &&& my_pawn.0 < 4
            &&& row[my_pawn.0 as int] == spec_start_area_id(player)
            &&& their_player != player
            &&& (their_player.0 as int) < b.len()
            &&& (their_pawn.0 as int) < 4
            &&& to == b[their_player.0 as int][their_pawn.0 as int]
            &&& is_track(to)
        },
        Move::Pass => false,
    }
}

pub open spec fn all_abiding(b: Seq<Seq<SpaceId>>, player: PlayerId, card: Card, s: Seq<Move>) -> bool {
    forall|i: int| 0 <= i < s.len() ==> rule_abiding(b, player, card, #[trigger] s[i])
}

proof fn lemma_concat(b: Seq<Seq<SpaceId>>, player: PlayerId, card: Card, a: Seq<Move>, c: Seq<Move>)
    requires
        all_abiding(b, player, card, a),
        all_abiding(b, player, card, c),
    ensures
        all_abiding(b, player, card, a + c),
{
    assert forall|i: int| 0 <= i < (a + c).len() implies rule_abiding(b, player, card, #[trigger] (a + c)[i]) by {
        if i < a.len() {
            assert((a + c)[i] == a[i]);
        } else {
            assert((a + c)[i] == c[i - a.len()]);
        }
    }
}

proof fn lemma_start_target_clear(b: Seq<Seq<SpaceId>>, player: PlayerId, cur: SpaceId, k: nat)
    ensures
        start_target(b, player, cur, k) matches Some(t) ==> !own_at(b, player, t),
    decreases k,
{
    if !own_at(b, player, cur) && k > 0 {
        match crate::rules::spec_forward(cur, player) {
            Some(n) => lemma_start_target_clear(b, player, n, (k - 1) as nat),
            None => {},
        }
    }
}

proof fn lemma_step_section(b: Seq<Seq<SpaceId>>, player: PlayerId, card: Card, n: i8, fwd: bool, k: int)
    requires
        fwd ==> spec_forward_steps(card) == Some(n),
        !fwd ==> spec_backward_steps(card) == Some(n),
        k <= 4,
    ensures
        all_abiding(b, player, card, step_section(b, player, n, fwd, k)),
    decreases k,
{
    if k > 0 {
        lemma_step_section(b, player, card, n, fwd, k - 1);
        lemma_concat(
            b,
            player,
            card,
            step_section(b, player, n, fwd, k - 1),
            opt_seq(step_move(b, player, k - 1, n, fwd)),
        );
    }
}

proof fn lemma_split_inner(b: Seq<Seq<SpaceId>>, player: PlayerId, card: Card, a: int, c: int, pa: int, k: int)
    requires
        card == Card::Seven,
        1 <= a,
        1 <= c,
        a + c == 7,
        0 <= pa < 4,
        k <= 4,
    ensures
        all_abiding(b, player, card, split_inner(b, player, a, c, pa, k)),
    decreases k,
{
    if k > 0 {
        lemma_split_inner(b, player, card, a, c, pa, k - 1);
        lemma_concat(
            b,
            player,
            card,
            split_inner(b, player, a, c, pa, k - 1),
            opt_seq(split_move(b, player, a, c, pa, k - 1)),
        );
    }
}

proof fn lemma_split_mid(b: Seq<Seq<SpaceId>>, player: PlayerId, card: Card, a: int, c: int, k: int)
    requires
        card == Card::Seven,
        1 <= a,
        1 <= c,
        a + c == 7,
        k <= 4,
    ensures
        all_abiding(b, player, card, split_mid(b, player, a, c, k)),
    decreases k,
{
    if k > 0 {
        lemma_split_mid(b, player, card, a, c, k - 1);
        lemma_split_inner(b, player, card, a, c, k - 1, 4);
        lemma_concat(b, player, card, split_mid(b, player, a, c, k - 1), split_inner(b, player, a, c, k - 1, 4));
    }
}

proof fn lemma_split_outer(b: Seq<Seq<SpaceId>>, player: PlayerId, card: Card, k: int)
    requires
        card == Card::Seven,
        k <= 7,
    ensures
        all_abiding(b, player, card, split_outer(b, player, 7, k)),
    decreases k,
{
    if k > 1 {
        lemma_split_outer(b, player, card, k - 1);
        lemma_split_mid(b, player, card, k - 1, 7 - (k - 1), 4);
        lemma_concat(b, player, card, split_outer(b, player, 7, k - 1), split_mid(b, player, k - 1, 7 - (k - 1), 4));
    }
}

proof fn lemma_swap_inner(b: Seq<Seq<SpaceId>>, player: PlayerId, card: Card, pw: int, other: int, k: int)
    requires
        card == Card::Eleven,
        is_track(b[player.0 as int][pw]),
        0 <= pw < 4,
        0 <= other < b.len() <= 255,
        other != player.0,
        k <= 4,
    ensures
        all_abiding(b, player, card, swap_inner(b, player, pw, other, k)),
    decreases k,
{
    if k > 0 {
        lemma_swap_inner(b, player, card, pw, other, k - 1);
        let tail = if is_track(b[other][k - 1]) {
            seq![
                Move::SwapEleven {
                    my_pawn: PawnId(pw as u8),
                    their_player: PlayerId(other as u8),
                    their_pawn: PawnId((k - 1) as u8),
                },
            ]
        } else {
            Seq::empty()
        };
        assert(PlayerId(other as u8).0 as int == other);
        assert(all_abiding(b, player, card, tail));
        lemma_concat(b, player, card, swap_inner(b, player, pw, other, k - 1), tail);
    }
}

proof fn lemma_swap_mid(b: Seq<Seq<SpaceId>>, player: PlayerId, card: Card, pw: int, k: int)
    requires
        card == Card::Eleven,
        is_track(b[player.0 as int][pw]),
        0 <= pw < 4,
        k <= b.len() <= 255,
    ensures
        all_abiding(b, player, card, swap_mid(b, player, pw, k)),
    decreases k,
{
    if k > 0 {
        lemma_swap_mid(b, player, card, pw, k - 1);
        if k - 1 != player.0 {
            lemma_swap_inner(b, player, card, pw, k - 1, 4);
            lemma_concat(b, player, card, swap_mid(b, player, pw, k - 1), swap_inner(b, player, pw, k - 1, 4));
        } else {
            lemma_concat(b, player, card, swap_mid(b, player, pw, k - 1), Seq::empty());
        }
    }
}

proof fn lemma_swap_outer(b: Seq<Seq<SpaceId>>, player: PlayerId, card: Card, k: int)
    requires
        card == Card::Eleven,
        k <= 4,
        b.len() <= 255,
    ensures
        all_abiding(b, player, card, swap_outer(b, player, k)),
    decreases k,
{
    if k > 0 {
        lemma_swap_outer(b, player, card, k - 1);
        if is_track(b[player.0 as int][k - 1]) {
            lemma_swap_mid(b, player, card, k - 1, b.len() as int);
        }
        lemma_concat(
            b,
            player,
            card,
            swap_outer(b, player, k - 1),
            if is_track(b[player.0 as int][k - 1]) {
                swap_mid(b, player, k - 1, b.len() as int)
            } else {
                Seq::empty()
            },
        );
    }
}

proof fn lemma_sorry_inner(b: Seq<Seq<SpaceId>>, player: PlayerId, card: Card, my: int, other: int, k: int)
    requires
        card == Card::Sorry,
        b[player.0 as int][my] == spec_start_area_id(player),
        0 <= my < 4,
        0 <= other < b.len() <= 255,
        other != player.0,
        k <= 4,
    ensures
        all_abiding(b, player, card, sorry_inner(b, player, my, other, k)),
    decreases k,
{
    if k > 0 {
        lemma_sorry_inner(b, player, card, my, other, k - 1);
        let tail = if is_track(b[other][k - 1]) {
            seq![
                Move::Sorry {
                    my_pawn: PawnId(my as u8),
                    their_player: PlayerId(other as u8),
                    their_pawn: PawnId((k - 1) as u8),
                    to: b[other][k - 1],
                },
            ]
        } else {
            Seq::empty()
        };
        assert(PlayerId(other as u8).0 as int == other);
        assert(PawnId((k - 1) as u8).0 as int == k - 1);
        assert(all_abiding(b, player, card, tail));
        lemma_concat(b, player, card, sorry_inner(b, player, my, other, k - 1), tail);
    }
}

proof fn lemma_sorry_mid(b: Seq<Seq<SpaceId>>, player: PlayerId, card: Card, my: int, k: int)
    requires
        card == Card::Sorry,
        b[player.0 as int][my] == spec_start_area_id(player),
        0 <= my < 4,
        k <= b.len() <= 255,
    ensures
        all_abiding(b, player, card, sorry_mid(b, player, my, k)),
    decreases k,
{
    if k > 0 {
        lemma_sorry_mid(b, player, card, my, k - 1);
        if k - 1 != player.0 {
            lemma_sorry_inner(b, player, card, my, k - 1, 4);
            lemma_concat(b, player, card, sorry_mid(b, player, my, k - 1), sorry_inner(b, player, my, k - 1, 4));
        } else {
            lemma_concat(b, player, card, sorry_mid(b, player, my, k - 1), Seq::empty());
        }
    }
}

proof fn lemma_first_start_pawn(row: Seq<SpaceId>, sa: SpaceId, i: int)
    requires
        0 <= i,
    ensures
        first_start_pawn(row, sa, i) matches Some(j) ==> i <= j < 4 && row[j] == sa,
    decreases 4 - i,
{
    if i < 4 && row[i] != sa {
        lemma_first_start_pawn(row, sa, i + 1);
    }
}

proof fn lemma_candidates(b: Seq<Seq<SpaceId>>, player: PlayerId, card: Card)
    requires
        moves_board_ok(b, player),
    ensures
        all_abiding(b, player, card, candidate_moves(b, player, card)),
{
    let s0 = start_section(b, player, card);
    lemma_first_start_pawn(b[player.0 as int], crate::rules::spec_start_area_id(player), 0);
    match crate::rules::spec_start_pawn_advance(card) {
        Some(extra) => lemma_start_target_clear(b, player, crate::rules::spec_start_exit(player), extra as nat),
        None => {},
    }
    assert(all_abiding(b, player, card, s0));
    let s1 = advance_section(b, player, card);
    match crate::rules::spec_forward_steps(card) {
        Some(n) => lemma_step_section(b, player, card, n, true, 4),
        None => {},
    }
    let s2 = retreat_section(b, player, card);
    match crate::rules::spec_backward_steps(card) {
        Some(n) => lemma_step_section(b, player, card, n, false, 4),
        None => {},
    }
    let s3 = split_section(b, player, card);
    if card == Card::Seven {
        lemma_split_outer(b, player, card, 7);
    }
    let s4 = swap_section(b, player, card);
    if card == Card::Eleven {
        lemma_swap_outer(b, player, card, 4);
    }
    let s5 = sorry_section(b, player, card);
    match first_start_pawn(b[player.0 as int], crate::rules::spec_start_area_id(player), 0) {
        Some(i) => if card == Card::Sorry {
            lemma_sorry_mid(b, player, card, i, b.len() as int);
        },
        None => {},
    }
    lemma_concat(b, player, card, s0, s1);
    lemma_concat(b, player, card, s0 + s1, s2);
    lemma_concat(b, player, card, s0 + s1 + s2, s3);
    lemma_concat(b, player, card, s0 + s1 + s2 + s3, s4);
    lemma_concat(b, player, card, s0 + s1 + s2 + s3 + s4, s5);
}

/// Every generated move other than Pass obeys the movement rules
/// (`rule_abiding`): forward and backward moves walk the card's count from
/// a pawn that may step; pawns leave Start from the Start area; a split 7
/// moves two distinct pawns by non-zero amounts summing to 7, each leg
/// reached by its own steps and the legs apart unless both reach Home; an
/// 11 swaps one of the player's track pawns with another player's; a Sorry
/// takes a pawn from Start onto another player's track pawn; and no move
/// ends on a space held by one of the mover's own pawns, Home excepted.
/// The move set is never empty, and every move names pawns that exist.
pub proof fn lemma_legal_moves_obey_rules(b: Seq<Seq<SpaceId>>, player: PlayerId, card: Card)
    requires
        moves_board_ok(b, player),
    ensures
        spec_legal_moves(b, player, card).len() >= 1,
        forall|i: int|
            0 <= i < spec_legal_moves(b, player, card).len() ==> move_slots_ok(
                b,
                player,
                #[trigger] spec_legal_moves(b, player, card)[i],
            ),
        forall|i: int|
            0 <= i < spec_legal_moves(b, player, card).len() && !(spec_legal_moves(b, player, card)[i] is Pass)
                ==> rule_abiding(b, player, card, #[trigger] spec_legal_moves(b, player, card)[i]),
{
    lemma_candidates(b, player, card);
    let base = candidate_moves(b, player, card);
    let legal = spec_legal_moves(b, player, card);
    assert forall|i: int| 0 <= i < legal.len() && !(legal[i] is Pass) implies rule_abiding(
        b,
        player,
        card,
        #[trigger] legal[i],
    ) by {
        if i < base.len() {
            if card == Card::Eleven && !has_advance(base) {
                assert(legal[i] == base[i]);
            }
        }
    }
    assert forall|i: int| 0 <= i < legal.len() implies move_slots_ok(b, player, #[trigger] legal[i]) by {
        if !(legal[i] is Pass) {
            if i < base.len() {
                if card == Card::Eleven && !has_advance(base) {
                    assert(legal[i] == base[i]);
                }
            }
            assert(rule_abiding(b, player, card, legal[i]));
        }
    }
}

/// Pass is offered exactly when the player may (or must) decline: with an 11,
/// precisely when no forward 11 is possible; with any other card, only as the
/// lone forfeit when the card has no move at all.
pub proof fn lemma_pass_rules(b: Seq<Seq<SpaceId>>, player: PlayerId, card: Card)
    requires
        moves_board_ok(b, player),
    ensures
        card == Card::Eleven ==> (spec_legal_moves(b, player, card).contains(Move::Pass) <==> !has_advance(
            spec_legal_moves(b, player, card),
        )),
        card != Card::Eleven ==> (spec_legal_moves(b, player, card).contains(Move::Pass) <==> spec_legal_moves(
            b,
            player,
            card,
        ) == seq![Move::Pass]),
{
    lemma_candidates(b, player, card);
    let base = candidate_moves(b, player, card);
    let legal = spec_legal_moves(b, player, card);
    assert(!base.contains(Move::Pass));
    if card == Card::Eleven {
        if has_advance(base) {
            let i = choose|i: int| 0 <= i < base.len() && #[trigger] base[i] is Advance;
            assert(legal[i] is Advance);
        } else {
            assert(legal == base.push(Move::Pass));
            assert(legal[legal.len() - 1] == Move::Pass);
            assert forall|i: int| 0 <= i < legal.len() implies !(#[trigger] legal[i] is Advance) by {
                if i < base.len() {
                    assert(legal[i] == base[i]);
                }
            }
        }
    } else {
        if base.len() == 0 {
            assert(legal == seq![Move::Pass]);
            assert(legal[0] == Move::Pass);
        } else {
            assert(legal == base);
        }
    }
}

proof fn lemma_step_section_has(b: Seq<Seq<SpaceId>>, player: PlayerId, n: i8, fwd: bool, pw: int, k: int)
    requires
        0 <= pw < k,
        step_move(b, player, pw, n, fwd) is Some,
    ensures
        step_section(b, player, n, fwd, k).contains(step_move(b, player, pw, n, fwd)->Some_0),
    decreases k,
{
    let head = step_section(b, player, n, fwd, k - 1);
    let tail = opt_seq(step_move(b, player, k - 1, n, fwd));
    if pw < k - 1 {
        lemma_step_section_has(b, player, n, fwd, pw, k - 1);
        let j = choose|j: int| 0 <= j < head.len() && head[j] == step_move(b, player, pw, n, fwd)->Some_0;
        assert((head + tail)[j] == head[j]);
    } else {
        assert((head + tail)[head.len() as int] == tail[0]);
    }
}

/// Every plain forward or backward move is offered: when the card moves
/// `n` steps forward (backward), a pawn that may step and whose walk of `n`
/// steps along the player's path reaches a space free of the player's own
/// pawns (or Home) may make that move.
pub proof fn lemma_steps_offered(b: Seq<Seq<SpaceId>>, player: PlayerId, card: Card, pw: int, n: i8, fwd: bool)
    requires
        moves_board_ok(b, player),
        0 <= pw < 4,
        fwd ==> spec_forward_steps(card) == Some(n),
        !fwd ==> spec_backward_steps(card) == Some(n),
        can_step_from(b[player.0 as int][pw], player),
        walk(b[player.0 as int][pw], player, n as int, fwd) is Some,
        landable(b, player, walk(b[player.0 as int][pw], player, n as int, fwd)->Some_0),
    ensures
        spec_legal_moves(b, player, card).contains(
            if fwd {
                Move::Advance {
                    pawn: PawnId(pw as u8),
                    card_value: n,
                    to: walk(b[player.0 as int][pw], player, n as int, fwd)->Some_0,
                }
            } else {
                Move::Retreat {
                    pawn: PawnId(pw as u8),
                    card_value: n,
                    to: walk(b[player.0 as int][pw], player, n as int, fwd)->Some_0,
                }
            },
        ),
{
    let m = step_move(b, player, pw, n, fwd)->Some_0;
    lemma_step_section_has(b, player, n, fwd, pw, 4);
    let s0 = start_section(b, player, card);
    let s1 = advance_section(b, player, card);
    let s2 = retreat_section(b, player, card);
    let s3 = split_section(b, player, card);
    let s4 = swap_section(b, player, card);
    let s5 = sorry_section(b, player, card);
    let base = candidate_moves(b, player, card);
    let sec = if fwd { s1 } else { s2 };
    let j = choose|j: int| 0 <= j < sec.len() && sec[j] == m;
    let off = if fwd { s0.len() as int } else { (s0.len() + s1.len()) as int };
    assert(base == s0 + s1 + s2 + s3 + s4 + s5);
    assert(base[off + j] == m);
    let legal = spec_legal_moves(b, player, card);
    if card == Card::Eleven && !has_advance(base) {
        assert(legal[off + j] == m);
    } else {
        assert(legal[off + j] == m);
    }
}

proof fn lemma_concat_has(s: Seq<Move>, t: Seq<Move>, m: Move)
    ensures
        s.contains(m) || t.contains(m) ==> (s + t).contains(m),
{
    if s.contains(m) {
        let j = choose|j: int| 0 <= j < s.len() && s[j] == m;
        assert((s + t)[j] == m);
    } else if t.contains(m) {
        let j = choose|j: int| 0 <= j < t.len() && t[j] == m;
        assert((s + t)[s.len() + j] == m);
    }
}

/// A move of the candidate list is a legal move.
proof fn lemma_candidate_offered(b: Seq<Seq<SpaceId>>, player: PlayerId, card: Card, m: Move)
    requires
        candidate_moves(b, player, card).contains(m),
    ensures
        spec_legal_moves(b, player, card).contains(m),
{
    let base = candidate_moves(b, player, card);
    let j = choose|j: int| 0 <= j < base.len() && base[j] == m;
    if card == Card::Eleven && !has_advance(base) {
        assert(base.push(Move::Pass)[j] == m);
    }
}

proof fn lemma_swap_inner_has(b: Seq<Seq<SpaceId>>, player: PlayerId, pw: int, other: int, tp: int, k: int)
    requires
        0 <= tp < k,
        is_track(b[other][tp]),
    ensures
        swap_inner(b, player, pw, other, k).contains(
            Move::SwapEleven { my_pawn: PawnId(pw as u8), their_player: PlayerId(other as u8), their_pawn: PawnId(tp as u8) },
        ),
    decreases k,
{
    let m = Move::SwapEleven { my_pawn: PawnId(pw as u8), their_player: PlayerId(other as u8), their_pawn: PawnId(tp as u8) };
    let head = swap_inner(b, player, pw, other, k - 1);
    let tail = if is_track(b[other][k - 1]) {
        seq![
            Move::SwapEleven {
                my_pawn: PawnId(pw as u8),
                their_player: PlayerId(other as u8),
                their_pawn: PawnId((k - 1) as u8),
            },
        ]
    } else {
        Seq::empty()
    };
    if tp < k - 1 {
        lemma_swap_inner_has(b, player, pw, other, tp, k - 1);
    } else {
        assert(tail[0] == m);
    }
    lemma_concat_has(head, tail, m);
}

proof fn lemma_swap_mid_has(b: Seq<Seq<SpaceId>>, player: PlayerId, pw: int, other: int, tp: int, k: int)
    requires
        0 <= other < k,
        other != player.0,
        0 <= tp < 4,
        is_track(b[other][tp]),
    ensures
        swap_mid(b, player, pw, k).contains(
            Move::SwapEleven { my_pawn: PawnId(pw as u8), their_player: PlayerId(other as u8), their_pawn: PawnId(tp as u8) },
        ),
    decreases k,
{
    let m = Move::SwapEleven { my_pawn: PawnId(pw as u8), their_player: PlayerId(other as u8), their_pawn: PawnId(tp as u8) };
    let head = swap_mid(b, player, pw, k - 1);
    let tail = if k - 1 == player.0 {
        Seq::empty()
    } else {
        swap_inner(b, player, pw, k - 1, 4)
    };
    if other < k - 1 {
        lemma_swap_mid_has(b, player, pw, other, tp, k - 1);
    } else {
        lemma_swap_inner_has(b, player, pw, other, tp, 4);
    }
    lemma_concat_has(head, tail, m);
}

proof fn lemma_swap_outer_has(b: Seq<Seq<SpaceId>>, player: PlayerId, pw: int, other: int, tp: int, k: int)
    requires
        0 <= pw < k,
        is_track(b[player.0 as int][pw]),
        0 <= other < b.len(),
        other != player.0,
        0 <= tp < 4,
        is_track(b[other][tp]),
    ensures
        swap_outer(b, player, k).contains(
            Move::SwapEleven { my_pawn: PawnId(pw as u8), their_player: PlayerId(other as u8), their_pawn: PawnId(tp as u8) },
        ),
    decreases k,
{
    let m = Move::SwapEleven { my_pawn: PawnId(pw as u8), their_player: PlayerId(other as u8), their_pawn: PawnId(tp as u8) };
    let head = swap_outer(b, player, k - 1);
    let tail = if is_track(b[player.0 as int][k - 1]) {
        swap_mid(b, player, k - 1, b.len() as int)
    } else {
        Seq::empty()
    };
    if pw < k - 1 {
        lemma_swap_outer_has(b, player, pw, other, tp, k - 1);
    } else {
        lemma_swap_mid_has(b, player, pw, other, tp, b.len() as int);
    }
    lemma_concat_has(head, tail, m);
}

/// Every 11-swap is offered: holding an 11, any of the player's pawns on
/// the outer track may trade places with any other player's pawn on the
/// outer track.
pub proof fn lemma_swaps_offered(b: Seq<Seq<SpaceId>>, player: PlayerId, pw: int, other: int, tp: int)
    requires
        moves_board_ok(b, player),
        0 <= pw < 4,
        is_track(b[player.0 as int][pw]),
        0 <= other < b.len(),
        other != player.0,
        0 <= tp < 4,
        is_track(b[other][tp]),
    ensures
        spec_legal_moves(b, player, Card::Eleven).contains(
            Move::SwapEleven { my_pawn: PawnId(pw as u8), their_player: PlayerId(other as u8), their_pawn: PawnId(tp as u8) },
        ),
{
    let card = Card::Eleven;
    let m = Move::SwapEleven { my_pawn: PawnId(pw as u8), their_player: PlayerId(other as u8), their_pawn: PawnId(tp as u8) };
    lemma_swap_outer_has(b, player, pw, other, tp, 4);
    let s0 = start_section(b, player, card);
    let s1 = advance_section(b, player, card);
    let s2 = retreat_section(b, player, card);
    let s3 = split_section(b, player, card);
    let s4 = swap_section(b, player, card);
    let s5 = sorry_section(b, player, card);
    lemma_concat_has(s0 + s1 + s2 + s3, s4, m);
    lemma_concat_has(s0 + s1 + s2 + s3 + s4, s5, m);
    lemma_candidate_offered(b, player, card, m);
}

proof fn lemma_sorry_inner_has(b: Seq<Seq<SpaceId>>, player: PlayerId, my: int, other: int, tp: int, k: int)
    requires
        0 <= tp < k,
        is_track(b[other][tp]),
    ensures
        sorry_inner(b, player, my, other, k).contains(
            Move::Sorry {
                my_pawn: PawnId(my as u8),
                their_player: PlayerId(other as u8),
                their_pawn: PawnId(tp as u8),
                to: b[other][tp],
            },
        ),
    decreases k,
{
    let m = Move::Sorry {
        my_pawn: PawnId(my as u8),
        their_player: PlayerId(other as u8),
        their_pawn: PawnId(tp as u8),
        to: b[other][tp],
    };
    let head = sorry_inner(b, player, my, other, k - 1);
    let tail = if is_track(b[other][k - 1]) {
        seq![
            Move::Sorry {
                my_pawn: PawnId(my as u8),
                their_player: PlayerId(other as u8),
                their_pawn: PawnId((k - 1) as u8),
                to: b[other][k - 1],
            },
        ]
    } else {
        Seq::empty()
    };
    if tp < k - 1 {
        lemma_sorry_inner_has(b, player, my, other, tp, k - 1);
    } else {
        assert(tail[0] == m);
    }
    lemma_concat_has(head, tail, m);
}

proof fn lemma_sorry_mid_has(b: Seq<Seq<SpaceId>>, player: PlayerId, my: int, other: int, tp: int, k: int)
    requires
        0 <= other < k,
        other != player.0,
        0 <= tp < 4,
        is_track(b[other][tp]),
    ensures
        sorry_mid(b, player, my, k).contains(
            Move::Sorry {
                my_pawn: PawnId(my as u8),
                their_player: PlayerId(other as u8),
                their_pawn: PawnId(tp as u8),
                to: b[other][tp],
            },
        ),
    decreases k,
{
    let m = Move::Sorry {
        my_pawn: PawnId(my as u8),
        their_player: PlayerId(other as u8),
        their_pawn: PawnId(tp as u8),
        to: b[other][tp],
    };
    let head = sorry_mid(b, player, my, k - 1);
    let tail = if k - 1 == player.0 {
        Seq::empty()
    } else {
        sorry_inner(b, player, my, k - 1, 4)
    };
    if other < k - 1 {
        lemma_sorry_mid_has(b, player, my, other, tp, k - 1);
    } else {
        lemma_sorry_inner_has(b, player, my, other, tp, 4);
    }
    lemma_concat_has(head, tail, m);
}

/// Every Sorry is offered: holding a Sorry card with a pawn in Start, the
/// lowest-numbered pawn in Start may take the place of any other player's
/// pawn on the outer track.
pub proof fn lemma_sorries_offered(b: Seq<Seq<SpaceId>>, player: PlayerId, my: int, other: int, tp: int)
    requires
        moves_board_ok(b, player),
        first_start_pawn(b[player.0 as int], spec_start_area_id(player), 0) == Some(my),
        0 <= other < b.len(),
        other != player.0,
        0 <= tp < 4,
        is_track(b[other][tp]),
    ensures
        spec_legal_moves(b, player, Card::Sorry).contains(
            Move::Sorry {
                my_pawn: PawnId(my as u8),
                their_player: PlayerId(other as u8),
                their_pawn: PawnId(tp as u8),
                to: b[other][tp],
            },
        ),
{
    let card = Card::Sorry;
    let m = Move::Sorry {
        my_pawn: PawnId(my as u8),
        their_player: PlayerId(other as u8),
        their_pawn: PawnId(tp as u8),
        to: b[other][tp],
    };
    lemma_sorry_mid_has(b, player, my, other, tp, b.len() as int);
    let s0 = start_section(b, player, card);
    let s1 = advance_section(b, player, card);
    let s2 = retreat_section(b, player, card);
    let s3 = split_section(b, player, card);
    let s4 = swap_section(b, player, card);
    let s5 = sorry_section(b, player, card);
    lemma_concat_has(s0 + s1 + s2 + s3 + s4, s5, m);
    lemma_candidate_offered(b, player, card, m);
}

proof fn lemma_split_inner_has(b: Seq<Seq<SpaceId>>, player: PlayerId, a: int, c: int, pa: int, pb: int, k: int)
    requires
        0 <= pb < k,
        split_move(b, player, a, c, pa, pb) is Some,
    ensures
        split_inner(b, player, a, c, pa, k).contains(split_move(b, player, a, c, pa, pb)->Some_0),
    decreases k,
{
    let m = split_move(b, player, a, c, pa, pb)->Some_0;
    let head = split_inner(b, player, a, c, pa, k - 1);
    let tail = opt_seq(split_move(b, player, a, c, pa, k - 1));
    if pb < k - 1 {
        lemma_split_inner_has(b, player, a, c, pa, pb, k - 1);
    } else {
        assert(tail[0] == m);
    }
    lemma_concat_has(head, tail, m);
}

proof fn lemma_split_mid_has(b: Seq<Seq<SpaceId>>, player: PlayerId, a: int, c: int, pa: int, pb: int, k: int)
    requires
        0 <= pa < k,
        0 <= pb < 4,
        split_move(b, player, a, c, pa, pb) is Some,
    ensures
        split_mid(b, player, a, c, k).contains(split_move(b, player, a, c, pa, pb)->Some_0),
    decreases k,
{
    let m = split_move(b, player, a, c, pa, pb)->Some_0;
    let head = split_mid(b, player, a, c, k - 1);
    let tail = split_inner(b, player, a, c, k - 1, 4);
    if pa < k - 1 {
        lemma_split_mid_has(b, player, a, c, pa, pb, k - 1);
    } else {
        lemma_split_inner_has(b, player, a, c, pa, pb, 4);
    }
    lemma_concat_has(head, tail, m);
}

proof fn lemma_split_outer_has(b: Seq<Seq<SpaceId>>, player: PlayerId, total: int, a: int, pa: int, pb: int, k: int)
    requires
        1 <= a < k,
        0 <= pa < 4,
        0 <= pb < 4,
        split_move(b, player, a, total - a, pa, pb) is Some,
    ensures
        split_outer(b, player, total, k).contains(split_move(b, player, a, total - a, pa, pb)->Some_0),
    decreases k,
{
    let m = split_move(b, player, a, total - a, pa, pb)->Some_0;
    let head = split_outer(b, player, total, k - 1);
    let tail = split_mid(b, player, k - 1, total - (k - 1), 4);
    if a < k - 1 {
        lemma_split_outer_has(b, player, total, a, pa, pb, k - 1);
    } else {
        lemma_split_mid_has(b, player, a, total - a, pa, pb, 4);
    }
    lemma_concat_has(head, tail, m);
}

/// Every split 7 is offered: holding a 7, two different pawns that may
/// step, moved forward by `a` and `7 - a` steps (each at least one), whose
/// walks reach spaces free of the player's own pawns (or Home) and not the
/// same space unless Home, may make that split.
pub proof fn lemma_splits_offered(b: Seq<Seq<SpaceId>>, player: PlayerId, a: int, pa: int, pb: int)
    requires
        moves_board_ok(b, player),
        1 <= a <= 6,
        0 <= pa < 4,
        0 <= pb < 4,
        pa != pb,
        can_step_from(b[player.0 as int][pa], player),
        can_step_from(b[player.0 as int][pb], player),
        walk(b[player.0 as int][pa], player, a, true) is Some,
        walk(b[player.0 as int][pb], player, 7 - a, true) is Some,
        landable(b, player, walk(b[player.0 as int][pa], player, a, true)->Some_0),
        landable(b, player, walk(b[player.0 as int][pb], player, 7 - a, true)->Some_0),
        walk(b[player.0 as int][pa], player, a, true) != walk(b[player.0 as int][pb], player, 7 - a, true)
            || is_home_space(walk(b[player.0 as int][pa], player, a, true)->Some_0),
    ensures
        spec_legal_moves(b, player, Card::Seven).contains(
            Move::SplitSeven {
                first: SplitLeg {
                    pawn: PawnId(pa as u8),
                    steps: a as u8,
                    to: walk(b[player.0 as int][pa], player, a, true)->Some_0,
                },
                second: SplitLeg {
                    pawn: PawnId(pb as u8),
                    steps: (7 - a) as u8,
                    to: walk(b[player.0 as int][pb], player, 7 - a, true)->Some_0,
                },
            },
        ),
{
    let card = Card::Seven;
    let m = split_move(b, player, a, 7 - a, pa, pb)->Some_0;
    lemma_split_outer_has(b, player, 7, a, pa, pb, 7);
    let s0 = start_section(b, player, card);
    let s1 = advance_section(b, player, card);
    let s2 = retreat_section(b, player, card);
    let s3 = split_section(b, player, card);
    let s4 = swap_section(b, player, card);
    let s5 = sorry_section(b, player, card);
    lemma_concat_has(s0 + s1 + s2, s3, m);
    lemma_concat_has(s0 + s1 + s2 + s3, s4, m);
    lemma_concat_has(s0 + s1 + s2 + s3 + s4, s5, m);
    lemma_candidate_offered(b, player, card, m);
}

/// An 11-swap or a Pass from the legal moves: neither bumps nor slides. A
/// swap trades the two pawns' places and leaves every other pawn where it
/// was; a Pass leaves the board as it was.
pub proof fn lemma_swap_and_pass_effect(b: Seq<Seq<SpaceId>>, player: PlayerId, card: Card, mv: Move)
    requires
        moves_board_ok(b, player),
        spec_legal_moves(b, player, card).contains(mv),
        mv is SwapEleven || mv is Pass,
    ensures
        apply_ok(b, player, mv),
        spec_apply_move(b, player, mv).1 == Seq::<BumpEvent>::empty(),
        spec_apply_move(b, player, mv).2 == Seq::<SlideRecord>::empty(),
        mv is Pass ==> spec_apply_move(b, player, mv).0 == b,
        mv matches Move::SwapEleven { my_pawn, their_player, their_pawn } ==> {
            let c = spec_apply_move(b, player, mv).0;
            let (p, i) = (player.0 as int, my_pawn.0 as int);
            let (q, j) = (their_player.0 as int, their_pawn.0 as int);
            &&& p != q
            &&& same_shape(b, c)
            &&& c[p][i] == b[q][j]
            &&& c[q][j] == b[p][i]
            &&& forall|x: int, y: int|
                0 <= x < b.len() && 0 <= y < b[x].len() && !(x == p && y == i) && !(x == q && y == j) ==> #[trigger] c[x][y]
                    == b[x][y]
        },
{
    lemma_legal_moves_obey_rules(b, player, card);
    let legal = spec_legal_moves(b, player, card);
    let k = choose|k: int| 0 <= k < legal.len() && legal[k] == mv;
    assert(move_slots_ok(b, player, legal[k]));
    if let Move::SwapEleven { my_pawn, their_player, their_pawn } = mv {
        assert(rule_abiding(b, player, card, legal[k]));
        let c = spec_apply_move(b, player, mv).0;
        let (p, i) = (player.0 as int, my_pawn.0 as int);
        let (q, j) = (their_player.0 as int, their_pawn.0 as int);
        assert(p != q);
        assert forall|x: int| 0 <= x < b.len() implies #[trigger] b[x].len() == c[x].len() by {}
    }
}

/// A step of `fwd` (or backward) motion by `n`: the move names a pawn below
/// four that may step, and lands where `n` single steps in that direction
/// lead.
pub open spec fn plain_step(b: Seq<Seq<SpaceId>>, player: PlayerId, m: Move, n: i8, fwd: bool) -> bool {
    let row = b[player.0 as int];
    match m {
        Move::Advance { pawn, card_value, to } => fwd && card_value == n && pawn.0 < 4 && can_step_from(
            row[pawn.0 as int],
            player,
        ) && walk(row[pawn.0 as int], player, n as int, true) == Some(to),
        Move::Retreat { pawn, card_value, to } => !fwd && card_value == n && pawn.0 < 4 && can_step_from(
            row[pawn.0 as int],
            player,
        ) && walk(row[pawn.0 as int], player, n as int, false) == Some(to),
        _ => false,
    }
}

proof fn lemma_step_section_members(b: Seq<Seq<SpaceId>>, player: PlayerId, n: i8, fwd: bool, k: int)
    requires
        0 <= k <= 4,
    ensures
        forall|j: int|
            0 <= j < step_section(b, player, n, fwd, k).len() ==> plain_step(
                b,
                player,
                #[trigger] step_section(b, player, n, fwd, k)[j],
                n,
                fwd,
            ),
    decreases k,
{
    if k > 0 {
        lemma_step_section_members(b, player, n, fwd, k - 1);
        let head = step_section(b, player, n, fwd, k - 1);
        let tail = opt_seq(step_move(b, player, k - 1, n, fwd));
        let s = step_section(b, player, n, fwd, k);
        assert(s == head + tail);
        assert forall|j: int| 0 <= j < s.len() implies plain_step(b, player, #[trigger] s[j], n, fwd) by {
            if j < head.len() {
                assert(s[j] == head[j]);
            } else {
                assert(s[j] == tail[j - head.len()]);
            }
        }
    }
}

/// A 4 moves a pawn backward four spaces: holding a Four, every legal move
/// but Pass is a Retreat of exactly four backward steps, and every pawn that
/// may step, whose four backward steps reach a space free of the player's
/// own pawns (or Home), is offered that Retreat.
pub proof fn lemma_four_moves_back(b: Seq<Seq<SpaceId>>, player: PlayerId)
    requires
        moves_board_ok(b, player),
    ensures
        forall|i: int|
            0 <= i < spec_legal_moves(b, player, Card::Four).len() ==> (#[trigger] spec_legal_moves(b, player, Card::Four)[i]) is Pass
                || plain_step(b, player, spec_legal_moves(b, player, Card::Four)[i], 4, false),
        forall|pw: int|
            0 <= pw < 4 && can_step_from(#[trigger] b[player.0 as int][pw], player) && walk(b[player.0 as int][pw], player, 4, false) is Some
                && landable(b, player, walk(b[player.0 as int][pw], player, 4, false)->Some_0) ==> spec_legal_moves(
                b,
                player,
                Card::Four,
            ).contains(
                Move::Retreat {
                    pawn: PawnId(pw as u8),
                    card_value: 4,
                    to: walk(b[player.0 as int][pw], player, 4, false)->Some_0,
                },
            ),
{
    let card = Card::Four;
    let s0 = start_section(b, player, card);
    let s1 = advance_section(b, player, card);
    let s2 = retreat_section(b, player, card);
    let s3 = split_section(b, player, card);
    let s4 = swap_section(b, player, card);
    let s5 = sorry_section(b, player, card);
    let base = candidate_moves(b, player, card);
    assert(s0.len() == 0 && s1.len() == 0 && s3.len() == 0 && s4.len() == 0 && s5.len() == 0);
    assert(base =~= s2);
    lemma_step_section_members(b, player, 4, false, 4);
    let legal = spec_legal_moves(b, player, card);
    assert forall|i: int| 0 <= i < legal.len() implies (#[trigger] legal[i]) is Pass || plain_step(b, player, legal[i], 4, false) by {
        if base.len() > 0 {
            assert(legal == base);
            assert(legal[i] == s2[i]);
        }
    }
    assert forall|pw: int|
        0 <= pw < 4 && can_step_from(#[trigger] b[player.0 as int][pw], player) && walk(b[player.0 as int][pw], player, 4, false) is Some
            && landable(b, player, walk(b[player.0 as int][pw], player, 4, false)->Some_0) implies legal.contains(
        Move::Retreat { pawn: PawnId(pw as u8), card_value: 4, to: walk(b[player.0 as int][pw], player, 4, false)->Some_0 },
    ) by {
        lemma_steps_offered(b, player, card, pw, 4, false);
    }
}

proof fn lemma_walk_not_start(from: SpaceId, player: PlayerId, k: nat, fwd: bool)
    requires
        k > 0,
        walk_n(from, player, k, fwd) is Some,
    ensures
        !is_start_id(walk_n(from, player, k, fwd)->Some_0),
    decreases k,
{
    let next = if fwd {
        spec_forward(from, player)
    } else {
        spec_backward(from, player)
    };
    let n = next->Some_0;
    if k > 1 {
        lemma_walk_not_start(n, player, (k - 1) as nat, fwd);
    } else {
        assert(walk_n(n, player, 0, fwd) == Some(n));
    }
}

/// A legal split 7 has the effect of two single moves, each bumping the
/// pawns of other seats where it lands: at a table of at most four seats,
/// no pawn of another seat is left on the space where either leg came to
/// rest, and every pawn of another seat on the second leg's destination is
/// named in a bump event and ends the move in its own Start area.
pub proof fn lemma_legal_split_effect(b: Seq<Seq<SpaceId>>, player: PlayerId, mv: Move)
    requires
        moves_board_ok(b, player),
        b.len() <= 4,
        spec_legal_moves(b, player, Card::Seven).contains(mv),
        mv is SplitSeven,
    ensures
        ({
            let first = mv->SplitSeven_first;
            let second = mv->SplitSeven_second;
            let r = spec_apply_move(b, player, mv);
            &&& r.0[player.0 as int][second.pawn.0 as int] == resting_space(second.to, player)
            &&& forall|q: int, i: int|
                0 <= q < b.len() && q != player.0 && 0 <= i < b[q].len() ==> #[trigger] r.0[q][i] != resting_space(
                    first.to,
                    player,
                ) && r.0[q][i] != resting_space(second.to, player)
            &&& forall|q: int, i: int|
                0 <= q < b.len() && q != player.0 && 0 <= i < b[q].len() && #[trigger] b[q][i] == second.to ==> r.0[q][i]
                    == start_of(q) && exists|k: int| 0 <= k < r.1.len() && #[trigger] names_pawn(r.1[k], q, i)
        }),
{
    lemma_legal_moves_obey_rules(b, player, Card::Seven);
    let legal = spec_legal_moves(b, player, Card::Seven);
    let k = choose|k: int| 0 <= k < legal.len() && legal[k] == mv;
    assert(move_slots_ok(b, player, legal[k]));
    assert(rule_abiding(b, player, Card::Seven, legal[k]));
    let first = mv->SplitSeven_first;
    let second = mv->SplitSeven_second;
    let row = b[player.0 as int];
    lemma_walk_not_start(row[first.pawn.0 as int], player, first.steps as nat, true);
    lemma_walk_not_start(row[second.pawn.0 as int], player, second.steps as nat, true);
    lemma_split_effect(b, player, mv);
}

/// A 10 moves a pawn forward ten spaces or backward one: holding a Ten,
/// every legal move but Pass is an Advance of exactly ten forward steps or
/// a Retreat of exactly one backward step.
pub proof fn lemma_ten_moves(b: Seq<Seq<SpaceId>>, player: PlayerId)
    requires
        moves_board_ok(b, player),
    ensures
        forall|i: int|
            0 <= i < spec_legal_moves(b, player, Card::Ten).len() ==> (#[trigger] spec_legal_moves(b, player, Card::Ten)[i]) is Pass
                || plain_step(b, player, spec_legal_moves(b, player, Card::Ten)[i], 10, true) || plain_step(
                b,
                player,
                spec_legal_moves(b, player, Card::Ten)[i],
                1,
                false,
            ),
{
    let card = Card::Ten;
    let s0 = start_section(b, player, card);
    let s1 = advance_section(b, player, card);
    let s2 = retreat_section(b, player, card);
    let s3 = split_section(b, player, card);
    let s4 = swap_section(b, player, card);
    let s5 = sorry_section(b, player, card);
    let base = candidate_moves(b, player, card);
    assert(s0.len() == 0 && s3.len() == 0 && s4.len() == 0 && s5.len() == 0);
    assert(base =~= s1 + s2);
    lemma_step_section_members(b, player, 10, true, 4);
    lemma_step_section_members(b, player, 1, false, 4);
    let legal = spec_legal_moves(b, player, card);
    assert forall|i: int| 0 <= i < legal.len() implies (#[trigger] legal[i]) is Pass || plain_step(b, player, legal[i], 10, true)
        || plain_step(b, player, legal[i], 1, false) by {
        if base.len() > 0 {
            assert(legal == base);
            if i < s1.len() {
                assert(legal[i] == s1[i]);
            } else {
                assert(legal[i] == s2[i - s1.len()]);
            }
        }
    }
}

} // verus!
