//! Identifiers, space classification, and the mutable pawn placement.

use vstd::prelude::*;

verus! {

/// Seat index of a player (0-based).
#[derive(Debug, Clone, Copy, PartialEq, Eq, Hash, PartialOrd, Ord, Structural)]
pub struct PlayerId(pub u8);

/// Index of a pawn within its owner's set of pawns.
#[derive(Debug, Clone, Copy, PartialEq, Eq, Hash, PartialOrd, Ord, Structural)]
pub struct PawnId(pub u8);

/// Opaque identifier of a board space; the rules own the numbering.
#[derive(Debug, Clone, Copy, PartialEq, Eq, Hash, PartialOrd, Ord, Structural)]
pub struct SpaceId(pub u32);

/// What kind of space a `SpaceId` refers to.
#[derive(Debug, Clone, Copy, PartialEq, Eq, Hash, Structural)]
pub enum Space {
    Track(u32),
    StartArea(PlayerId),
    Safety(PlayerId, u8),
    Home(PlayerId),
}

/// Placement of every pawn: `pawns[player][pawn]` is the pawn's space.
#[derive(Debug, Clone, PartialEq, Eq)]
pub struct BoardState {
    pawns: Vec<Vec<SpaceId>>,
}

/// Sizes that keep every player and pawn index representable as a `u8` id.
pub open spec fn board_shape_ok(b: Seq<Seq<SpaceId>>) -> bool {
    &&& b.len() <= 255
    &&& forall|p: int| 0 <= p < b.len() ==> #[trigger] b[p].len() <= 255
}

/// The (player, pawn) slot `pp` exists on board `b`.
pub open spec fn valid_slot(b: Seq<Seq<SpaceId>>, pp: (PlayerId, PawnId)) -> bool {
    &&& (pp.0.0 as int) < b.len()
    &&& (pp.1.0 as int) < b[pp.0.0 as int].len()
}

/// The pawn `pp` stands on `space`.
pub open spec fn occupies(b: Seq<Seq<SpaceId>>, pp: (PlayerId, PawnId), space: SpaceId) -> bool {
    valid_slot(b, pp) && b[pp.0.0 as int][pp.1.0 as int] == space
}

/// Strict (player, pawn) order, player-major.
pub open spec fn slot_before(a: (PlayerId, PawnId), c: (PlayerId, PawnId)) -> bool {
    a.0.0 < c.0.0 || (a.0.0 == c.0.0 && a.1.0 < c.1.0)
}

/// The board with one pawn moved to `to`.
pub open spec fn board_set(b: Seq<Seq<SpaceId>>, p: int, i: int, to: SpaceId) -> Seq<Seq<SpaceId>> {
    b.update(p, b[p].update(i, to))
}

impl View for BoardState {
    type V = Seq<Seq<SpaceId>>;

    closed spec fn view(&self) -> Seq<Seq<SpaceId>> {
        self.pawns@.map_values(|row: Vec<SpaceId>| row@)
    }
}

impl BoardState {
    /// Board with every pawn of player `p` on `start_area[p]`.
    pub fn fresh(num_players: usize, pawns_per_player: usize, start_area: &[SpaceId]) -> (r: Self)
        requires
            start_area@.len() == num_players,
        ensures
            r@.len() == num_players,
            forall|p: int| 0 <= p < num_players ==> #[trigger] r@[p] == Seq::new(
                pawns_per_player as nat,
                |i: int| start_area@[p],
            ),
    {
        let mut pawns: Vec<Vec<SpaceId>> = Vec::new();
        let mut p: usize = 0;
        while p < num_players
            invariant
                p <= num_players,
                start_area@.len() == num_players,
                pawns@.len() == p,
                forall|q: int| 0 <= q < p ==> #[trigger] pawns@[q]@ == Seq::new(
                    pawns_per_player as nat,
                    |i: int| start_area@[q],
                ),
            decreases num_players - p,
        {
            let mut row: Vec<SpaceId> = Vec::new();
            let mut i: usize = 0;
            while i < pawns_per_player
                invariant
                    i <= pawns_per_player,
                    p < start_area@.len(),
                    row@ == Seq::new(i as nat, |k: int| start_area@[p as int]),
                decreases pawns_per_player - i,
            {
                row.push(start_area[p]);
                i = i + 1;
            }
            pawns.push(row);
            p = p + 1;
        }
        let r = Self { pawns };
        assert forall|q: int| 0 <= q < num_players implies #[trigger] r@[q] == Seq::new(
            pawns_per_player as nat,
            |i: int| start_area@[q],
        ) by {
            assert(r@[q] == r.pawns@[q]@);
        }
        r
    }

    pub fn num_players(&self) -> (r: usize)
        ensures
            r == self@.len(),
    {
        self.pawns.len()
    }

    /// Pawn count of the first player, or 0 on an empty board.
    pub fn pawns_per_player(&self) -> (r: usize)
        ensures
            r == (if self@.len() == 0 { 0 } else { self@[0].len() }),
    {
        if self.pawns.len() == 0 {
            0
        } else {
            self.pawns[0].len()
        }
    }

    pub fn position(&self, player: PlayerId, pawn: PawnId) -> (r: SpaceId)
        requires
            valid_slot(self@, (player, pawn)),
        ensures
            r == self@[player.0 as int][pawn.0 as int],
    {
        self.pawns[player.0 as usize][pawn.0 as usize]
    }

    pub fn pawns_of(&self, player: PlayerId) -> (r: &[SpaceId])
        requires
            (player.0 as int) < self@.len(),
        ensures
            r@ == self@[player.0 as int],
    {
        self.pawns[player.0 as usize].as_slice()
    }

    /// The first pawn, in (player, pawn) order, that stands on `space`.
    pub fn pawn_at(&self, space: SpaceId) -> (r: Option<(PlayerId, PawnId)>)
        requires
            board_shape_ok(self@),
        ensures
            match r {
                Some(pp) => occupies(self@, pp, space) && forall|q: PlayerId, j: PawnId|
                    #![trigger occupies(self@, (q, j), space)]
                    slot_before((q, j), pp) ==> !occupies(self@, (q, j), space),
                None => forall|q: PlayerId, j: PawnId| !occupies(self@, (q, j), space),
            },
    {
        let ghost b = self@;
        let n = self.pawns.len();
        let mut p: usize = 0;
        while p < n
            invariant
                n == b.len(),
                b == self@,
                board_shape_ok(b),
                p <= n,
                forall|q: PlayerId, j: PawnId|
                    #![trigger occupies(b, (q, j), space)]
                    (q.0 as int) < p ==> !occupies(b, (q, j), space),
            decreases n - p,
        {
            let row = &self.pawns[p];
            assert(row@ == b[p as int]);
            let m = row.len();
            let mut i: usize = 0;
            while i < m
                invariant
                    n == b.len(),
                    b == self@,
                    board_shape_ok(b),
                    p < n,
                    m == b[p as int].len(),
                    row@ == b[p as int],
                    i <= m,
                    forall|q: PlayerId, j: PawnId|
                        #![trigger occupies(b, (q, j), space)]
                        (q.0 as int) < p ==> !occupies(b, (q, j), space),
                    forall|q: PlayerId, j: PawnId|
                        #![trigger occupies(b, (q, j), space)]
                        q.0 as int == p && (j.0 as int) < i ==> !occupies(b, (q, j), space),
                decreases m - i,
            {
                if row[i] == space {
                    let pp = (PlayerId(p as u8), PawnId(i as u8));
                    assert(occupies(b, pp, space));
                    return Some(pp);
                }
                i = i + 1;
            }
            p = p + 1;
        }
        None
    }

    /// Every pawn on `space`, in (player, pawn) order.
    pub fn pawns_at(&self, space: SpaceId) -> (r: Vec<(PlayerId, PawnId)>)
        requires
            board_shape_ok(self@),
        ensures
            forall|k: int| 0 <= k < r@.len() ==> occupies(self@, #[trigger] r@[k], space),
            forall|q: PlayerId, j: PawnId|
                #![trigger occupies(self@, (q, j), space)]
                occupies(self@, (q, j), space) ==> r@.contains((q, j)),
            forall|k1: int, k2: int|
                0 <= k1 < k2 < r@.len() ==> slot_before(#[trigger] r@[k1], #[trigger] r@[k2]),
    {
        let ghost b = self@;
        let mut out: Vec<(PlayerId, PawnId)> = Vec::new();
        let n = self.pawns.len();
        let mut p: usize = 0;
        while p < n
            invariant
                n == b.len(),
                b == self@,
                board_shape_ok(b),
                p <= n,
                forall|k: int| 0 <= k < out@.len() ==> occupies(b, #[trigger] out@[k], space),
                forall|k: int| 0 <= k < out@.len() ==> (#[trigger] out@[k]).0.0 < p,
                forall|q: PlayerId, j: PawnId|
                    #![trigger occupies(b, (q, j), space)]
                    (q.0 as int) < p && occupies(b, (q, j), space) ==> out@.contains((q, j)),
                forall|k1: int, k2: int|
                    0 <= k1 < k2 < out@.len() ==> slot_before(#[trigger] out@[k1], #[trigger] out@[k2]),
            decreases n - p,
        {
            let row = &self.pawns[p];
            assert(row@ == b[p as int]);
            let m = row.len();
            let ghost before = out@;
            let mut i: usize = 0;
            while i < m
                invariant
                    n == b.len(),
                    b == self@,
                    board_shape_ok(b),
                    p < n,
                    m == b[p as int].len(),
                    row@ == b[p as int],
                    i <= m,
                    out@.len() >= before.len(),
                    forall|k: int| 0 <= k < before.len() ==> out@[k] == before[k],
                    forall|k: int| 0 <= k < before.len() ==> (#[trigger] before[k]).0.0 < p,
                    forall|k: int| 0 <= k < out@.len() ==> occupies(b, #[trigger] out@[k], space),
                    forall|k: int|
                        before.len() <= k < out@.len() ==> (#[trigger] out@[k]).0.0 == p
                            && (out@[k].1.0 as int) < i,
                    forall|q: PlayerId, j: PawnId|
                        #![trigger occupies(b, (q, j), space)]
                        (q.0 as int) < p && occupies(b, (q, j), space) ==> before.contains((q, j)),
                    forall|q: PlayerId, j: PawnId|
                        #![trigger occupies(b, (q, j), space)]
                        q.0 as int == p && (j.0 as int) < i && occupies(b, (q, j), space)
                            ==> out@.contains((q, j)),
                    forall|k1: int, k2: int|
                        0 <= k1 < k2 < out@.len() ==> slot_before(#[trigger] out@[k1], #[trigger] out@[k2]),
                decreases m - i,
            {
                if row[i] == space {
                    let pp = (PlayerId(p as u8), PawnId(i as u8));
                    let ghost old_out = out@;
                    assert(pp.0.0 as int == p && pp.1.0 as int == i);
                    assert forall|k: int| 0 <= k < old_out.len() implies slot_before(
                        #[trigger] old_out[k],
                        pp,
                    ) by {
                        if k < before.len() {
                            assert(old_out[k] == before[k]);
                        }
                    }
                    out.push(pp);
                    assert forall|k1: int, k2: int|
                        0 <= k1 < k2 < out@.len() implies slot_before(#[trigger] out@[k1], #[trigger] out@[k2]) by {
                        if k2 == out@.len() - 1 {
                            assert(out@[k1] == old_out[k1]);
                        } else {
                            assert(out@[k1] == old_out[k1] && out@[k2] == old_out[k2]);
                        }
                    }
                    assert forall|q: PlayerId, j: PawnId|
                        #![trigger occupies(b, (q, j), space)]
                        q.0 as int == p && (j.0 as int) < i + 1 && occupies(b, (q, j), space)
                            implies out@.contains((q, j)) by {
                        if (j.0 as int) < i {
                            let w = choose|w: int| 0 <= w < old_out.len() && old_out[w] == (q, j);
                            assert(out@[w] == (q, j));
                        } else {
                            assert(out@[out@.len() - 1] == (q, j));
                        }
                    }
                    assert forall|q: PlayerId, j: PawnId|
                        #![trigger occupies(b, (q, j), space)]
                        (q.0 as int) < p && occupies(b, (q, j), space) implies before.contains((q, j)) by {
                    }
                }
                i = i + 1;
            }
            assert forall|k: int| 0 <= k < out@.len() implies (#[trigger] out@[k]).0.0 < p + 1 by {
                if k < before.len() {
                    assert(out@[k] == before[k]);
                }
            }
            assert forall|q: PlayerId, j: PawnId|
                #![trigger occupies(b, (q, j), space)]
                (q.0 as int) < p + 1 && occupies(b, (q, j), space) implies out@.contains((q, j)) by {
                if (q.0 as int) < p {
                    let w = choose|w: int| 0 <= w < before.len() && before[w] == (q, j);
                    assert(out@[w] == (q, j));
                }
            }
            p = p + 1;
        }
        out
    }

    pub fn set_position(&mut self, player: PlayerId, pawn: PawnId, to: SpaceId)
        requires
            valid_slot(old(self)@, (player, pawn)),
        ensures
            final(self)@ == board_set(old(self)@, player.0 as int, pawn.0 as int, to),
    {
        let p = player.0 as usize;
        let i = pawn.0 as usize;
        let mut row = self.pawns[p].clone();
        assert(row@ =~= old(self).pawns@[p as int]@);
        row.set(i, to);
        self.pawns.set(p, row);
        assert(self@ =~= board_set(old(self)@, player.0 as int, pawn.0 as int, to));
    }

    /// Every pawn position, flattened as `positions[player][pawn] = space`.
    pub fn all_positions(&self) -> (r: &[Vec<SpaceId>])
        ensures
            r@.map_values(|row: Vec<SpaceId>| row@) == self@,
    {
        self.pawns.as_slice()
    }

    /// Copy of every pawn position.
    pub fn positions_copy(&self) -> (r: Vec<Vec<SpaceId>>)
        ensures
            r@.map_values(|row: Vec<SpaceId>| row@) == self@,
    {
        let mut out: Vec<Vec<SpaceId>> = Vec::new();
        let mut p: usize = 0;
        while p < self.pawns.len()
            invariant
                p <= self.pawns@.len(),
                out@.len() == p,
                forall|q: int| 0 <= q < p ==> (#[trigger] out@[q])@ == self.pawns@[q]@,
            decreases self.pawns@.len() - p,
        {
            let row = self.pawns[p].clone();
            assert(row@ =~= self.pawns@[p as int]@);
            out.push(row);
            p = p + 1;
        }
        assert(out@.map_values(|row: Vec<SpaceId>| row@) =~= self@);
        out
    }
}

} // verus!
