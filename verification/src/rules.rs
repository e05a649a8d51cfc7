//! The standard Sorry! rule set: board topology, card semantics and the
//! win condition, for four player slots on a 60-space outer ring.
//!
//! SpaceId layout:
//!   Track(i)      for i in 0..60          -> SpaceId(i)
//!   StartArea(p)  for p in 0..4           -> SpaceId(60 + p)
//!   Safety(p, i)  for p in 0..4, i in 0..5 -> SpaceId(64 + p*5 + i)
//!   Home(p)       for p in 0..4           -> SpaceId(84 + p)
//!
//! Side s owns tracks s*15 .. s*15+15. Player s leaves Start onto track
//! s*15+4 and enters its safety zone from track s*15+2. Side s has a short
//! slide from s*15+1 to s*15+4 and a long slide from s*15+9 to s*15+13;
//! a player's own-color slides do not trigger.

use crate::board::{BoardState, PlayerId, SpaceId, Space, valid_slot};
use crate::card::{Card, spec_standard_deck, standard_deck};
use crate::rng::shuffle_vec;
use crate::rng::{GameRng, RngCall, permuted, shuffle_order};
use vstd::prelude::*;

verus! {

pub const NUM_TRACK: u32 = 60;

pub const NUM_SIDES: u32 = 4;

pub const SIDE_LEN: u32 = 15;

pub const SAFETY_LEN: u8 = 5;

pub open spec fn spec_track_id(i: u32) -> SpaceId {
    SpaceId((i % 60) as u32)
}

pub open spec fn spec_start_area_id(p: PlayerId) -> SpaceId {
    SpaceId((60 + p.0) as u32)
}

pub open spec fn spec_safety_id(p: PlayerId, slot: u8) -> SpaceId {
    SpaceId((64 + p.0 * 5 + slot) as u32)
}

pub open spec fn spec_home_id(p: PlayerId) -> SpaceId {
    SpaceId((84 + p.0) as u32)
}

pub open spec fn spec_start_exit(p: PlayerId) -> SpaceId {
    spec_track_id((p.0 * 15 + 4) as u32)
}

pub open spec fn spec_safety_entry_track(p: PlayerId) -> u32 {
    (p.0 * 15 + 2) as u32
}

/// The kind of space `id` names, or `None` off the board.
pub open spec fn spec_classify(id: SpaceId) -> Option<Space> {
    let v = id.0;
    if v < 60 {
        Some(Space::Track(v))
    } else if v < 64 {
        Some(Space::StartArea(PlayerId((v - 60) as u8)))
    } else if v < 84 {
        Some(Space::Safety(PlayerId(((v - 64) / 5) as u8), ((v - 64) % 5) as u8))
    } else if v < 88 {
        Some(Space::Home(PlayerId((v - 84) as u8)))
    } else {
        None
    }
}

pub open spec fn is_track(id: SpaceId) -> bool {
    id.0 < 60
}

pub open spec fn is_home_space(id: SpaceId) -> bool {
    spec_classify(id) matches Some(Space::Home(_))
}

/// One step forward for `player`; track spaces wrap, the player's safety
/// entry leads into its safety zone, the last safety slot leads Home.
pub open spec fn spec_forward(from: SpaceId, player: PlayerId) -> Option<SpaceId> {
    match spec_classify(from) {
        Some(Space::Track(i)) => if i == spec_safety_entry_track(player) {
            Some(spec_safety_id(player, 0))
        } else {
            Some(spec_track_id((i + 1) as u32))
        },
        Some(Space::Safety(owner, slot)) => if owner != player {
            None
        } else if slot + 1 < 5 {
            Some(spec_safety_id(player, (slot + 1) as u8))
        } else {
            Some(spec_home_id(player))
        },
        _ => None,
    }
}

/// One step backward for `player`.
pub open spec fn spec_backward(from: SpaceId, player: PlayerId) -> Option<SpaceId> {
    match spec_classify(from) {
        Some(Space::Track(i)) => Some(spec_track_id(((i + 59) % 60) as u32)),
        Some(Space::Safety(owner, slot)) => if owner != player {
            None
        } else if slot == 0 {
            Some(spec_track_id(spec_safety_entry_track(player)))
        } else {
            Some(spec_safety_id(player, (slot - 1) as u8))
        },
        _ => None,
    }
}

/// The slide a pawn of `player` takes on landing at `from`: its end and the
/// spaces it passes after leaving the head.
pub open spec fn spec_slide(from: SpaceId, player: PlayerId) -> Option<(SpaceId, Seq<SpaceId>)> {
    match spec_classify(from) {
        Some(Space::Track(i)) => {
            let side = i / 15;
            let pos = i % 15;
            let base = side * 15;
            if side == player.0 {
                None
            } else if pos == 1 {
                Some(
                    (
                        SpaceId((base + 4) as u32),
                        seq![SpaceId((base + 2) as u32), SpaceId((base + 3) as u32), SpaceId((base + 4) as u32)],
                    ),
                )
            } else if pos == 9 {
                Some(
                    (
                        SpaceId((base + 13) as u32),
                        seq![
                            SpaceId((base + 10) as u32),
                            SpaceId((base + 11) as u32),
                            SpaceId((base + 12) as u32),
                            SpaceId((base + 13) as u32),
                        ],
                    ),
                )
            } else {
                None
            }
        },
        _ => None,
    }
}

/// A slide starts only at a short-slide head (side position 1) or a
/// long-slide head (side position 9) of another player's side, and passes
/// the track spaces right after the head, in order, up to and including its
/// end: three of them for a short slide, four for a long one. The head
/// itself is not among them.
pub proof fn lemma_slide_shape(from: SpaceId, player: PlayerId)
    ensures
        spec_slide(from, player) matches Some((end, path)) ==> {
            &&& from.0 < 60
            &&& (from.0 / 15) as int != player.0 as int
            &&& (from.0 % 15 == 1 && path.len() == 3) || (from.0 % 15 == 9 && path.len() == 4)
            &&& forall|k: int| 0 <= k < path.len() ==> (#[trigger] path[k]).0 == from.0 + k + 1
            &&& path[path.len() - 1] == end
            &&& end.0 == from.0 + path.len()
            &&& !path.contains(from)
        },
{
    if let Some((end, path)) = spec_slide(from, player) {
        if path.contains(from) {
            let k = choose|k: int| 0 <= k < path.len() && path[k] == from;
            assert(path[k].0 == from.0 + k + 1);
        }
    }
}

/// The space at position `i` of the canonical space list.
pub open spec fn space_at_index(i: int) -> Space {
    if i < 60 {
        Space::Track(i as u32)
    } else if i < 64 {
        Space::StartArea(PlayerId((i - 60) as u8))
    } else if i < 84 {
        Space::Safety(PlayerId(((i - 64) / 5) as u8), ((i - 64) % 5) as u8)
    } else {
        Space::Home(PlayerId((i - 84) as u8))
    }
}

pub open spec fn spec_forward_steps(card: Card) -> Option<i8> {
    match card {
        Card::One => Some(1),
        Card::Two => Some(2),
        Card::Three => Some(3),
        Card::Five => Some(5),
        Card::Seven => Some(7),
        Card::Eight => Some(8),
        Card::Ten => Some(10),
        Card::Eleven => Some(11),
        Card::Twelve => Some(12),
        Card::Four | Card::Sorry => None,
    }
}

pub open spec fn spec_backward_steps(card: Card) -> Option<i8> {
    match card {
        Card::Four => Some(4),
        Card::Ten => Some(1),
        _ => None,
    }
}

pub open spec fn spec_split_total(card: Card) -> Option<u8> {
    match card {
        Card::Seven => Some(7),
        _ => None,
    }
}

pub open spec fn spec_start_pawn_advance(card: Card) -> Option<u32> {
    match card {
        Card::One => Some(0),
        Card::Two => Some(1),
        _ => None,
    }
}

/// Every pawn of `player` is Home.
pub open spec fn spec_is_winner(b: Seq<Seq<SpaceId>>, player: PlayerId) -> bool {
    forall|i: int| 0 <= i < b[player.0 as int].len() ==> #[trigger] b[player.0 as int][i] == spec_home_id(player)
}

/// Whether the game ends once `winners` have finished, out of `n` players.
pub open spec fn spec_game_over(play_out: bool, winners: Seq<PlayerId>, n: nat) -> bool {
    if play_out {
        winners.len() + 1 >= n
    } else {
        winners.len() >= 1
    }
}

/// The players of `0..n` that are missing from `winners`, in seat order.
pub open spec fn missing_players(winners: Seq<PlayerId>, n: nat) -> Seq<PlayerId>
    decreases n,
{
    if n == 0 {
        Seq::empty()
    } else {
        let rest = missing_players(winners, (n - 1) as nat);
        if winners.contains(PlayerId((n - 1) as u8)) {
            rest
        } else {
            rest.push(PlayerId((n - 1) as u8))
        }
    }
}

/// Final placement list once the game is over.
pub open spec fn spec_finalize_winners(play_out: bool, winners: Seq<PlayerId>, n: nat) -> Seq<PlayerId> {
    if play_out {
        winners + missing_players(winners, n)
    } else {
        winners
    }
}

/// The standard rule set, optionally in the Play Out variant, which keeps
/// playing after the first finisher until the full placement is known.
pub struct StandardRules {
    spaces: Vec<Space>,
    play_out: bool,
}

pub fn track_id(i: u32) -> (r: SpaceId)
    ensures
        r == spec_track_id(i),
{
    SpaceId(i % NUM_TRACK)
}

pub fn start_area_id(p: PlayerId) -> (r: SpaceId)
    ensures
        r == spec_start_area_id(p),
{
    SpaceId(NUM_TRACK + p.0 as u32)
}

pub fn safety_id(p: PlayerId, slot: u8) -> (r: SpaceId)
    ensures
        r == spec_safety_id(p, slot),
{
    SpaceId(64 + (p.0 as u32) * 5 + slot as u32)
}

pub fn home_id(p: PlayerId) -> (r: SpaceId)
    ensures
        r == spec_home_id(p),
{
    SpaceId(NUM_TRACK + NUM_SIDES + NUM_SIDES * (SAFETY_LEN as u32) + p.0 as u32)
}

pub fn classify(id: SpaceId) -> (r: Option<Space>)
    ensures
        r == spec_classify(id),
{
    let v = id.0;
    if v < NUM_TRACK {
        return Some(Space::Track(v));
    }
    let v = v - NUM_TRACK;
    if v < NUM_SIDES {
        return Some(Space::StartArea(PlayerId(v as u8)));
    }
    let v = v - NUM_SIDES;
    if v < NUM_SIDES * (SAFETY_LEN as u32) {
        let p = (v / (SAFETY_LEN as u32)) as u8;
        let slot = (v % (SAFETY_LEN as u32)) as u8;
        return Some(Space::Safety(PlayerId(p), slot));
    }
    let v = v - NUM_SIDES * (SAFETY_LEN as u32);
    if v < NUM_SIDES {
        return Some(Space::Home(PlayerId(v as u8)));
    }
    None
}

/// Track index from which `p` steps into its safety zone.
pub fn safety_entry_track(p: PlayerId) -> (r: u32)
    ensures
        r == spec_safety_entry_track(p),
{
    p.0 as u32 * SIDE_LEN + 2
}

proof fn lemma_safety_slot_index(p: int, slot: int)
    requires
        0 <= p < 4,
        0 <= slot < 5,
    ensures
        (p * 5 + slot) / 5 == p,
        (p * 5 + slot) % 5 == slot,
        p * 5 + slot < 20,
{
    assert((p * 5 + slot) / 5 == p) by (nonlinear_arith)
        requires
            0 <= p < 4,
            0 <= slot < 5,
    ;
    assert((p * 5 + slot) % 5 == slot) by (nonlinear_arith)
        requires
            0 <= p < 4,
            0 <= slot < 5,
    ;
    assert(p * 5 + slot < 20) by (nonlinear_arith)
        requires
            0 <= p < 4,
            0 <= slot < 5,
    ;
}

impl Default for StandardRules {
    /// The standard rules.
    fn default() -> (r: Self)
        ensures
            r.wf(),
            !r.is_play_out(),
    {
        StandardRules::new()
    }
}

/// The seats of an `n`-player table in order.
pub open spec fn seat_ids(n: nat) -> Seq<PlayerId> {
    Seq::new(n, |i: int| PlayerId(i as u8))
}

impl StandardRules {
    /// The standard rules: the game ends at the first finisher.
    pub fn new() -> (r: Self)
        ensures
            r.wf(),
            !r.is_play_out(),
    {
        Self { spaces: build_spaces(), play_out: false }
    }

    /// The Play Out variant: play continues until every placement is known.
    pub fn new_play_out() -> (r: Self)
        ensures
            r.wf(),
            r.is_play_out(),
    {
        Self { spaces: build_spaces(), play_out: true }
    }

    pub closed spec fn wf(&self) -> bool {
        self.spaces@ == Seq::new(88, |i: int| space_at_index(i))
    }

    pub closed spec fn is_play_out(&self) -> bool {
        self.play_out
    }

    pub fn play_out(&self) -> (r: bool)
        ensures
            r == self.is_play_out(),
    {
        self.play_out
    }

    pub fn name(&self) -> (r: &'static str)
        ensures
            r@ == (if self.is_play_out() {
                "PlayOut"@
            } else {
                "Standard"@
            }),
    {
        if self.play_out {
            "PlayOut"
        } else {
            "Standard"
        }
    }

    pub fn min_players(&self) -> (r: usize)
        ensures
            r == 2,
    {
        2
    }

    pub fn max_players(&self) -> (r: usize)
        ensures
            r == 4,
    {
        4
    }

    pub fn pawns_per_player(&self) -> (r: usize)
        ensures
            r == 4,
    {
        4
    }

    /// 0: draw a card and play it immediately, with no persistent hand.
    pub fn hand_size(&self) -> (r: usize)
        ensures
            r == 0,
    {
        0
    }

    pub fn build_deck(&self) -> (r: Vec<Card>)
        ensures
            r@ == spec_standard_deck(),
    {
        standard_deck()
    }

    pub fn reshuffle_on_empty_deck(&self) -> (r: bool)
        ensures
            r,
    {
        true
    }

    /// Every space of the board, in `SpaceId` order.
    pub fn spaces(&self) -> (r: &[Space])
        requires
            self.wf(),
        ensures
            r@ == Seq::new(88, |i: int| space_at_index(i)),
    {
        self.spaces.as_slice()
    }

    pub fn classify(&self, id: SpaceId) -> (r: Option<Space>)
        ensures
            r == spec_classify(id),
    {
        classify(id)
    }

    pub fn classify_space(&self, id: SpaceId) -> (r: Option<Space>)
        ensures
            r == spec_classify(id),
    {
        classify(id)
    }

    /// The `i`-th outer-track space.
    pub fn track_space(&self, i: u32) -> (r: SpaceId)
        requires
            i < 60,
        ensures
            r == SpaceId(i),
            spec_classify(r) == Some(Space::Track(i)),
    {
        track_id(i)
    }

    /// The `slot`-th space of `player`'s safety zone.
    pub fn safety_space(&self, player: PlayerId, slot: u8) -> (r: SpaceId)
        requires
            slot < 5,
        ensures
            r == spec_safety_id(player, slot),
            r.0 == 64 + 5 * player.0 + slot,
            player.0 < 4 ==> spec_classify(r) == Some(Space::Safety(player, slot)),
    {
        proof {
            let v = 64 + player.0 * 5 + slot;
            assert((v - 64) / 5 == player.0 as int && (v - 64) % 5 == slot as int) by (nonlinear_arith)
                requires
                    v == 64 + player.0 * 5 + slot,
                    slot < 5,
            ;
        }
        safety_id(player, slot)
    }

    pub fn forward_neighbor(&self, from: SpaceId, player: PlayerId) -> (r: Option<SpaceId>)
        ensures
            r == spec_forward(from, player),
    {
        match classify(from) {
            Some(Space::Track(i)) => {
                if i == safety_entry_track(player) {
                    Some(safety_id(player, 0))
                } else {
                    Some(track_id(i + 1))
                }
            },
            Some(Space::Safety(owner, slot)) => {
                if owner != player {
                    None
                } else if slot + 1 < SAFETY_LEN {
                    Some(safety_id(player, slot + 1))
                } else {
                    Some(home_id(player))
                }
            },
            _ => None,
        }
    }

    pub fn backward_neighbor(&self, from: SpaceId, player: PlayerId) -> (r: Option<SpaceId>)
        ensures
            r == spec_backward(from, player),
    {
        match classify(from) {
            Some(Space::Track(i)) => {
                let prev = (i + NUM_TRACK - 1) % NUM_TRACK;
                Some(track_id(prev))
            },
            Some(Space::Safety(owner, slot)) => {
                if owner != player {
                    None
                } else if slot == 0 {
                    Some(track_id(safety_entry_track(player)))
                } else {
                    Some(safety_id(player, slot - 1))
                }
            },
            _ => None,
        }
    }

    /// The slide triggered by a pawn of `player` landing on `from`.
    pub fn slide_destination(&self, from: SpaceId, player: PlayerId) -> (r: Option<SlidePath>)
        ensures
            match r {
                Some(path) => spec_slide(from, player) == Some((path.end, path.traversed@)),
                None => spec_slide(from, player) is None,
            },
    {
        let i = match classify(from) {
            Some(Space::Track(i)) => i,
            _ => return None,
        };
        let side = i / SIDE_LEN;
        let pos_in_side = i % SIDE_LEN;
        if side as u8 == player.0 {
            return None;
        }
        let base = side * SIDE_LEN;
        if pos_in_side == 1 {
            let mut traversed: Vec<SpaceId> = Vec::new();
            traversed.push(track_id(base + 2));
            traversed.push(track_id(base + 3));
            traversed.push(track_id(base + 4));
            assert(traversed@ =~= seq![SpaceId((base + 2) as u32), SpaceId((base + 3) as u32), SpaceId((base + 4) as u32)]);
            Some(SlidePath { end: track_id(base + 4), traversed })
        } else if pos_in_side == 9 {
            let mut traversed: Vec<SpaceId> = Vec::new();
            traversed.push(track_id(base + 10));
            traversed.push(track_id(base + 11));
            traversed.push(track_id(base + 12));
            traversed.push(track_id(base + 13));
            assert(traversed@ =~= seq![
                SpaceId((base + 10) as u32),
                SpaceId((base + 11) as u32),
                SpaceId((base + 12) as u32),
                SpaceId((base + 13) as u32),
            ]);
            Some(SlidePath { end: track_id(base + 13), traversed })
        } else {
            None
        }
    }

    pub fn start_area(&self, player: PlayerId) -> (r: SpaceId)
        ensures
            r == spec_start_area_id(player),
    {
        start_area_id(player)
    }

    pub fn start_exit(&self, player: PlayerId) -> (r: SpaceId)
        ensures
            r == spec_start_exit(player),
    {
        track_id(player.0 as u32 * SIDE_LEN + 4)
    }

    pub fn home(&self, player: PlayerId) -> (r: SpaceId)
        ensures
            r == spec_home_id(player),
    {
        home_id(player)
    }

    pub fn forward_steps(&self, card: Card) -> (r: Option<i8>)
        ensures
            r == spec_forward_steps(card),
    {
        match card {
            Card::One => Some(1),
            Card::Two => Some(2),
            Card::Three => Some(3),
            Card::Five => Some(5),
            Card::Seven => Some(7),
            Card::Eight => Some(8),
            Card::Ten => Some(10),
            Card::Eleven => Some(11),
            Card::Twelve => Some(12),
            Card::Four | Card::Sorry => None,
        }
    }

    pub fn backward_steps(&self, card: Card) -> (r: Option<i8>)
        ensures
            r == spec_backward_steps(card),
    {
        match card {
            Card::Four => Some(4),
            Card::Ten => Some(1),
            _ => None,
        }
    }

    pub fn can_split(&self, card: Card) -> (r: bool)
        ensures
            r == (card == Card::Seven),
    {
        match card {
            Card::Seven => true,
            _ => false,
        }
    }

    pub fn split_total(&self, card: Card) -> (r: Option<u8>)
        ensures
            r == spec_split_total(card),
    {
        match card {
            Card::Seven => Some(7),
            _ => None,
        }
    }

    pub fn is_sorry(&self, card: Card) -> (r: bool)
        ensures
            r == (card == Card::Sorry),
    {
        match card {
            Card::Sorry => true,
            _ => false,
        }
    }

    pub fn is_swap(&self, card: Card) -> (r: bool)
        ensures
            r == (card == Card::Eleven),
    {
        match card {
            Card::Eleven => true,
            _ => false,
        }
    }

    /// Extra steps past `start_exit` when this card starts a pawn; `None`
    /// when the card cannot start one.
    pub fn start_pawn_advance(&self, card: Card) -> (r: Option<u32>)
        ensures
            r == spec_start_pawn_advance(card),
    {
        match card {
            Card::One => Some(0),
            Card::Two => Some(1),
            _ => None,
        }
    }

    pub fn grants_extra_turn(&self, card: Card) -> (r: bool)
        ensures
            r == (card == Card::Two),
    {
        match card {
            Card::Two => true,
            _ => false,
        }
    }

    /// A uniformly shuffled seat takes the first turn.
    pub fn starting_player(&self, num_players: usize, rng: &mut GameRng) -> (r: PlayerId)
        requires
            1 <= num_players <= 255,
        ensures
            (r.0 as int) < num_players,
            r == permuted(seat_ids(num_players as nat), shuffle_order(old(rng).seed_model(), old(rng).calls_model(), num_players as nat))[0],
            final(rng).seed_model() == old(rng).seed_model(),
            final(rng).calls_model() == old(rng).calls_model().push(RngCall::Shuffle(num_players)),
    {
        let mut ids: Vec<PlayerId> = Vec::new();
        let mut p: usize = 0;
        while p < num_players
            invariant
                p <= num_players <= 255,
                ids@.len() == p,
                forall|k: int| 0 <= k < p ==> (#[trigger] ids@[k]).0 as int == k,
            decreases num_players - p,
        {
            ids.push(PlayerId(p as u8));
            p = p + 1;
        }
        let ghost before = ids@;
        assert(before =~= seat_ids(num_players as nat));
        shuffle_vec(&mut ids, rng);
        proof {
            assert(ids@.to_multiset().count(ids@[0]) > 0) by {
                vstd::seq_lib::lemma_seq_contains_after_push(ids@, ids@[0], ids@[0]);
                ids@.to_multiset_ensures();
                assert(ids@.contains(ids@[0]));
            }
            before.to_multiset_ensures();
            assert(before.contains(ids@[0]));
        }
        ids[0]
    }

    pub fn is_winner(&self, board: &BoardState, player: PlayerId) -> (r: bool)
        requires
            (player.0 as int) < board@.len(),
        ensures
            r == spec_is_winner(board@, player),
    {
        let home = home_id(player);
        let pawns = board.pawns_of(player);
        let mut i: usize = 0;
        while i < pawns.len()
            invariant
                pawns@ == board@[player.0 as int],
                home == spec_home_id(player),
                i <= pawns@.len(),
                forall|k: int| 0 <= k < i ==> #[trigger] pawns@[k] == home,
            decreases pawns@.len() - i,
        {
            if pawns[i] != home {
                return false;
            }
            i = i + 1;
        }
        true
    }

    /// Every seat in `0..num_players` that has all pawns Home, in seat order.
    pub fn resolve_winners(&self, board: &BoardState, num_players: usize) -> (r: Vec<PlayerId>)
        requires
            num_players <= board@.len(),
            num_players <= 255,
        ensures
            forall|k: int| 0 <= k < r@.len() ==> (#[trigger] r@[k]).0 < num_players
                && spec_is_winner(board@, r@[k]),
            forall|p: int|
                #![trigger spec_is_winner(board@, PlayerId(p as u8))]
                0 <= p < num_players && spec_is_winner(board@, PlayerId(p as u8)) ==> r@.contains(
                    PlayerId(p as u8),
                ),
            forall|k1: int, k2: int| 0 <= k1 < k2 < r@.len() ==> (#[trigger] r@[k1]).0 < (#[trigger] r@[k2]).0,
    {
        let mut out: Vec<PlayerId> = Vec::new();
        let mut p: usize = 0;
        while p < num_players
            invariant
                p <= num_players <= board@.len(),
                num_players <= 255,
                forall|k: int| 0 <= k < out@.len() ==> (#[trigger] out@[k]).0 < p && spec_is_winner(
                    board@,
                    out@[k],
                ),
                forall|q: int|
                    #![trigger spec_is_winner(board@, PlayerId(q as u8))]
                    0 <= q < p && spec_is_winner(board@, PlayerId(q as u8)) ==> out@.contains(
                        PlayerId(q as u8),
                    ),
                forall|k1: int, k2: int|
                    0 <= k1 < k2 < out@.len() ==> (#[trigger] out@[k1]).0 < (#[trigger] out@[k2]).0,
            decreases num_players - p,
        {
            let pid = PlayerId(p as u8);
            if self.is_winner(board, pid) {
                let ghost old_out = out@;
                out.push(pid);
                assert forall|q: int|
                    #![trigger spec_is_winner(board@, PlayerId(q as u8))]
                    0 <= q < p + 1 && spec_is_winner(board@, PlayerId(q as u8)) implies out@.contains(
                    PlayerId(q as u8),
                ) by {
                    if q < p {
                        let w = choose|w: int| 0 <= w < old_out.len() && old_out[w] == PlayerId(q as u8);
                        assert(out@[w] == PlayerId(q as u8));
                    } else {
                        assert(out@[out@.len() - 1] == PlayerId(q as u8));
                    }
                }
            }
            p = p + 1;
        }
        out
    }

    /// Whether play stops once `winners` have finished.
    pub fn game_over(&self, winners: &Vec<PlayerId>, num_players: usize) -> (r: bool)
        ensures
            r == spec_game_over(self.is_play_out(), winners@, num_players as nat),
    {
        if self.play_out {
            num_players <= 1 || winners.len() >= num_players - 1
        } else {
            winners.len() >= 1
        }
    }

    /// Completes the placement list at game end: Play Out appends the seats
    /// that never finished, in seat order; standard rules keep it as is.
    pub fn finalize_winners(&self, winners: &mut Vec<PlayerId>, num_players: usize)
        requires
            num_players <= 255,
        ensures
            final(winners)@ == spec_finalize_winners(self.is_play_out(), old(winners)@, num_players as nat),
    {
        if !self.play_out {
            return;
        }
        let ghost w0 = old(winners)@;
        let mut p: usize = 0;
        while p < num_players
            invariant
                p <= num_players <= 255,
                winners@ == w0 + missing_players(w0, p as nat),
            decreases num_players - p,
        {
            let pid = PlayerId(p as u8);
            let mut found = false;
            let mut k: usize = 0;
            while k < winners.len()
                invariant
                    k <= winners@.len(),
                    winners@ == w0 + missing_players(w0, p as nat),
                    found == (exists|j: int| 0 <= j < k && winners@[j] == pid),
                decreases winners@.len() - k,
            {
                if winners[k] == pid {
                    found = true;
                }
                k = k + 1;
            }
            proof {
                lemma_missing_players_distinct_from_later(w0, p as nat, pid);
                if w0.contains(pid) {
                    let j = choose|j: int| 0 <= j < w0.len() && w0[j] == pid;
                    assert(winners@[j] == pid);
                }
            }
            if !found {
                winners.push(pid);
            }
            p = p + 1;
        }
    }

    /// `seat_sides[p]` is the board side of engine player `p`.
    pub fn seat_sides(&self, num_players: usize) -> (r: Vec<u8>)
        requires
            num_players <= 255,
        ensures
            r@ == Seq::new(num_players as nat, |i: int| i as u8),
    {
        let mut out: Vec<u8> = Vec::new();
        let mut p: usize = 0;
        while p < num_players
            invariant
                p <= num_players <= 255,
                out@ == Seq::new(p as nat, |i: int| i as u8),
            decreases num_players - p,
        {
            out.push(p as u8);
            p = p + 1;
            assert(out@ =~= Seq::new(p as nat, |i: int| i as u8));
        }
        out
    }

    /// Slide heads, ends and paths of the board, two per side in side order.
    pub fn slide_layouts(&self) -> (r: Vec<SlideLayout>)
        ensures
            r@.len() == 8,
            forall|k: int|
                0 <= k < 8 ==> {
                    let s = #[trigger] r@[k];
                    let side = k / 2;
                    let head = if k % 2 == 0 {
                        side * 15 + 1
                    } else {
                        side * 15 + 9
                    };
                    &&& s.owner == PlayerId(side as u8)
                    &&& s.head == SpaceId(head as u32)
                    &&& spec_slide(s.head, PlayerId(((side + 1) % 4) as u8)) == Some((s.end, s.path@))
                },
    {
        let mut out: Vec<SlideLayout> = Vec::new();
        let mut s: u8 = 0;
        while s < 4
            invariant
                s <= 4,
                out@.len() == 2 * s,
                forall|k: int|
                    0 <= k < 2 * s ==> {
                        let sl = #[trigger] out@[k];
                        let side = k / 2;
                        let head = if k % 2 == 0 {
                            side * 15 + 1
                        } else {
                            side * 15 + 9
                        };
                        &&& sl.owner == PlayerId(side as u8)
                        &&& sl.head == SpaceId(head as u32)
                        &&& spec_slide(sl.head, PlayerId(((side + 1) % 4) as u8)) == Some((sl.end, sl.path@))
                    },
            decreases 4 - s,
        {
            let owner = PlayerId(s);
            let victim = PlayerId((s + 1) % 4);
            let short_head = track_id(s as u32 * SIDE_LEN + 1);
            let short = self.slide_destination(short_head, victim);
            let long_head = track_id(s as u32 * SIDE_LEN + 9);
            let long = self.slide_destination(long_head, victim);
            match (short, long) {
                (Some(a), Some(b)) => {
                    out.push(SlideLayout { head: short_head, end: a.end, path: a.traversed, owner });
                    out.push(SlideLayout { head: long_head, end: b.end, path: b.traversed, owner });
                },
                _ => {
                    assert(false);
                },
            }
            s = s + 1;
        }
        out
    }

    /// Start area, start exit and home of each of the four seats.
    pub fn player_layouts(&self) -> (r: Vec<PlayerLayout>)
        ensures
            r@.len() == 4,
            forall|k: int|
                0 <= k < 4 ==> #[trigger] r@[k] == (PlayerLayout {
                    player: PlayerId(k as u8),
                    start_area: spec_start_area_id(PlayerId(k as u8)),
                    start_exit: spec_start_exit(PlayerId(k as u8)),
                    home: spec_home_id(PlayerId(k as u8)),
                }),
    {
        let mut out: Vec<PlayerLayout> = Vec::new();
        let mut s: u8 = 0;
        while s < 4
            invariant
                s <= 4,
                out@.len() == s,
                forall|k: int|
                    0 <= k < s ==> #[trigger] out@[k] == (PlayerLayout {
                        player: PlayerId(k as u8),
                        start_area: spec_start_area_id(PlayerId(k as u8)),
                        start_exit: spec_start_exit(PlayerId(k as u8)),
                        home: spec_home_id(PlayerId(k as u8)),
                    }),
            decreases 4 - s,
        {
            let p = PlayerId(s);
            out.push(
                PlayerLayout {
                    player: p,
                    start_area: start_area_id(p),
                    start_exit: self.start_exit(p),
                    home: home_id(p),
                },
            );
            s = s + 1;
        }
        out
    }

    /// Per-seat forward and backward neighbors of `id`, indexed by seat.
    pub fn adjacency(&self, id: SpaceId) -> (r: (Vec<Option<SpaceId>>, Vec<Option<SpaceId>>))
        ensures
            r.0@ == Seq::new(4, |p: int| spec_forward(id, PlayerId(p as u8))),
            r.1@ == Seq::new(4, |p: int| spec_backward(id, PlayerId(p as u8))),
    {
        let mut fwd: Vec<Option<SpaceId>> = Vec::new();
        let mut bwd: Vec<Option<SpaceId>> = Vec::new();
        let mut p: u8 = 0;
        while p < 4
            invariant
                p <= 4,
                fwd@ == Seq::new(p as nat, |q: int| spec_forward(id, PlayerId(q as u8))),
                bwd@ == Seq::new(p as nat, |q: int| spec_backward(id, PlayerId(q as u8))),
            decreases 4 - p,
        {
            fwd.push(self.forward_neighbor(id, PlayerId(p)));
            bwd.push(self.backward_neighbor(id, PlayerId(p)));
            p = p + 1;
            assert(fwd@ =~= Seq::new(p as nat, |q: int| spec_forward(id, PlayerId(q as u8))));
            assert(bwd@ =~= Seq::new(p as nat, |q: int| spec_backward(id, PlayerId(q as u8))));
        }
        (fwd, bwd)
    }
}

proof fn lemma_missing_players_facts(w: Seq<PlayerId>, m: nat)
    requires
        m <= 255,
    ensures
        missing_players(w, m).no_duplicates(),
        forall|k: int|
            0 <= k < missing_players(w, m).len() ==> (#[trigger] missing_players(w, m)[k]).0 < m
                && !w.contains(missing_players(w, m)[k]),
        forall|i: int|
            0 <= i < m ==> w.contains(PlayerId(i as u8)) || #[trigger] missing_players(w, m).contains(
                PlayerId(i as u8),
            ),
    decreases m,
{
    if m > 0 {
        lemma_missing_players_facts(w, (m - 1) as nat);
        let rest = missing_players(w, (m - 1) as nat);
        let pid = PlayerId((m - 1) as u8);
        if !w.contains(pid) {
            let full = rest.push(pid);
            assert(full[full.len() - 1] == pid);
            assert forall|a: int, b: int| 0 <= a < b < full.len() implies full[a] != full[b] by {
                if b == full.len() - 1 {
                    assert(full[a] == rest[a]);
                    assert(rest[a].0 < m - 1);
                }
            }
            assert forall|i: int| 0 <= i < m implies w.contains(PlayerId(i as u8)) || #[trigger] full.contains(
                PlayerId(i as u8),
            ) by {
                if i < m - 1 {
                    if rest.contains(PlayerId(i as u8)) {
                        let j = choose|j: int| 0 <= j < rest.len() && rest[j] == PlayerId(i as u8);
                        assert(full[j] == PlayerId(i as u8));
                    }
                } else {
                    assert(full[full.len() - 1] == PlayerId(i as u8));
                }
            }
        } else {
            assert forall|i: int| 0 <= i < m implies w.contains(PlayerId(i as u8)) || #[trigger] rest.contains(
                PlayerId(i as u8),
            ) by {
                if i == m - 1 {
                    assert(PlayerId(i as u8) == pid);
                }
            }
        }
    }
}

/// Play Out ranks every seat exactly once: completing a placement list of
/// distinct seats appends each missing seat once, so the final list names
/// every seat of the table, no seat twice, and nothing else.
pub proof fn lemma_play_out_ranks_every_seat(winners: Seq<PlayerId>, n: nat)
    requires
        n <= 255,
        winners.no_duplicates(),
        forall|k: int| 0 <= k < winners.len() ==> (#[trigger] winners[k]).0 < n,
    ensures
        spec_finalize_winners(true, winners, n).no_duplicates(),
        forall|k: int|
            0 <= k < spec_finalize_winners(true, winners, n).len() ==> (#[trigger] spec_finalize_winners(
                true,
                winners,
                n,
            )[k]).0 < n,
        forall|i: int|
            0 <= i < n ==> #[trigger] spec_finalize_winners(true, winners, n).contains(PlayerId(i as u8)),
{
    lemma_missing_players_facts(winners, n);
    let miss = missing_players(winners, n);
    let f = winners + miss;
    assert forall|a: int, b: int| 0 <= a < b < f.len() implies f[a] != f[b] by {
        if b < winners.len() {
        } else if a >= winners.len() {
            assert(f[a] == miss[a - winners.len()]);
            assert(f[b] == miss[b - winners.len()]);
        } else {
            assert(f[b] == miss[b - winners.len()]);
            assert(winners.contains(f[a]));
        }
    }
    assert forall|k: int| 0 <= k < f.len() implies (#[trigger] f[k]).0 < n by {
        if k >= winners.len() {
            assert(f[k] == miss[k - winners.len()]);
        }
    }
    assert forall|i: int| 0 <= i < n implies #[trigger] f.contains(PlayerId(i as u8)) by {
        if winners.contains(PlayerId(i as u8)) {
            let j = choose|j: int| 0 <= j < winners.len() && winners[j] == PlayerId(i as u8);
            assert(f[j] == PlayerId(i as u8));
        } else {
            assert(miss.contains(PlayerId(i as u8)));
            let j = choose|j: int| 0 <= j < miss.len() && miss[j] == PlayerId(i as u8);
            assert(f[winners.len() + j] == PlayerId(i as u8));
        }
    }
}

proof fn lemma_missing_players_distinct_from_later(w: Seq<PlayerId>, n: nat, pid: PlayerId)
    requires
        n <= 255,
        pid.0 as nat == n,
    ensures
        !missing_players(w, n).contains(pid),
    decreases n,
{
    if n > 0 {
        let pid2 = PlayerId((n - 1) as u8);
        lemma_missing_players_distinct_from_later(w, (n - 1) as nat, pid2);
        lemma_missing_players_below(w, (n - 1) as nat);
        lemma_missing_players_below(w, n);
    }
}

proof fn lemma_missing_players_below(w: Seq<PlayerId>, n: nat)
    requires
        n <= 255,
    ensures
        forall|k: int| 0 <= k < missing_players(w, n).len() ==> (#[trigger] missing_players(w, n)[k]).0 < n,
    decreases n,
{
    if n > 0 {
        lemma_missing_players_below(w, (n - 1) as nat);
        let rest = missing_players(w, (n - 1) as nat);
        let q = PlayerId((n - 1) as u8);
        assert(q.0 == n - 1);
        assert forall|k: int| 0 <= k < missing_players(w, n).len() implies (
        #[trigger] missing_players(w, n)[k]).0 < n by {
            if k < rest.len() {
                assert(missing_players(w, n)[k] == rest[k]);
            }
        }
    }
}

/// Builds the canonical space list.
fn build_spaces() -> (r: Vec<Space>)
    ensures
        r@ == Seq::new(88, |i: int| space_at_index(i)),
{
    let mut spaces: Vec<Space> = Vec::new();
    let mut i: u32 = 0;
    while i < NUM_TRACK
        invariant
            i <= 60,
            spaces@ == Seq::new(i as nat, |k: int| space_at_index(k)),
        decreases 60 - i,
    {
        spaces.push(Space::Track(i));
        i = i + 1;
        assert(spaces@ =~= Seq::new(i as nat, |k: int| space_at_index(k)));
    }
    let mut p: u8 = 0;
    while p < 4
        invariant
            p <= 4,
            spaces@ == Seq::new((60 + p) as nat, |k: int| space_at_index(k)),
        decreases 4 - p,
    {
        spaces.push(Space::StartArea(PlayerId(p)));
        p = p + 1;
        assert(spaces@ =~= Seq::new((60 + p) as nat, |k: int| space_at_index(k)));
    }
    let mut p: u8 = 0;
    while p < 4
        invariant
            p <= 4,
            spaces@ == Seq::new((64 + p * 5) as nat, |k: int| space_at_index(k)),
        decreases 4 - p,
    {
        let mut slot: u8 = 0;
        while slot < SAFETY_LEN
            invariant
                p < 4,
                slot <= 5,
                spaces@ == Seq::new((64 + p * 5 + slot) as nat, |k: int| space_at_index(k)),
            decreases 5 - slot,
        {
            proof {
                lemma_safety_slot_index(p as int, slot as int);
            }
            spaces.push(Space::Safety(PlayerId(p), slot));
            slot = slot + 1;
            assert(spaces@ =~= Seq::new((64 + p * 5 + slot) as nat, |k: int| space_at_index(k)));
        }
        p = p + 1;
    }
    let mut p: u8 = 0;
    while p < 4
        invariant
            p <= 4,
            spaces@ == Seq::new((84 + p) as nat, |k: int| space_at_index(k)),
        decreases 4 - p,
    {
        spaces.push(Space::Home(PlayerId(p)));
        p = p + 1;
        assert(spaces@ =~= Seq::new((84 + p) as nat, |k: int| space_at_index(k)));
    }
    spaces
}

/// A resolved slide: where it ends and every space passed after the head.
#[derive(Debug, Clone, PartialEq, Eq)]
pub struct SlidePath {
    pub end: SpaceId,
    pub traversed: Vec<SpaceId>,
}

/// A slide as published for rendering.
#[derive(Debug, Clone, PartialEq, Eq)]
pub struct SlideLayout {
    pub head: SpaceId,
    pub end: SpaceId,
    pub path: Vec<SpaceId>,
    pub owner: PlayerId,
}

/// A seat's fixed spaces as published for rendering.
#[derive(Debug, Clone, Copy, PartialEq, Eq, Structural)]
pub struct PlayerLayout {
    pub player: PlayerId,
    pub start_area: SpaceId,
    pub start_exit: SpaceId,
    pub home: SpaceId,
}

/// The classification of every in-range `SpaceId` round-trips through the
/// id constructors.
pub proof fn lemma_classify_round_trip(p: PlayerId, slot: u8, i: u32)
    requires
        p.0 < 4,
        slot < 5,
        i < 60,
    ensures
        spec_classify(spec_track_id(i)) == Some(Space::Track(i)),
        spec_classify(spec_start_area_id(p)) == Some(Space::StartArea(p)),
        spec_classify(spec_home_id(p)) == Some(Space::Home(p)),
        spec_classify(spec_safety_id(p, slot)) == Some(Space::Safety(p, slot)),
{
    lemma_safety_slot_index(p.0 as int, slot as int);
}

} // verus!
