//! The seeded random number generator and the few `rand` operations the
//! engine uses. A seeded generator's outcomes are fixed by its seed and the
//! uses made of it before; they are named here, not computed. The
//! thread-local generator's outcomes are described only by what holds of
//! every draw.

use rand::rngs::StdRng;
use rand::seq::SliceRandom;
use rand::{Rng, RngCore, SeedableRng};
use vstd::prelude::*;

verus! {

/// `rand::rngs::StdRng` (ChaCha12), carried opaquely inside `GameRng`.
#[verifier::external_type_specification]
#[verifier::external_body]
pub struct ExStdRng(StdRng);

/// One use of the seeded generator, as far as its effect on the stream
/// goes: a shuffle or a pick over so many items, or one 32-bit word.
#[derive(Debug, Clone, Copy, PartialEq, Eq, Structural)]
pub enum RngCall {
    Shuffle(usize),
    Choose(usize),
    Word,
}

/// A `StdRng` together with the seed it was made from and the uses made of
/// it so far. `StdRng` is deterministic: what it gives next is fixed by the
/// seed and those earlier uses.
pub struct GameRng {
    rng: StdRng,
    seed: Ghost<u64>,
    calls: Ghost<Seq<RngCall>>,
}

impl GameRng {
    /// The seed the generator was made from.
    pub closed spec fn seed_model(&self) -> u64 {
        self.seed@
    }

    /// The uses made of the generator since it was seeded.
    pub closed spec fn calls_model(&self) -> Seq<RngCall> {
        self.calls@
    }
}

/// The order `SliceRandom::shuffle` leaves `len` items in, on a generator
/// seeded with `seed` and used as `before`: item `k` of the result is item
/// `shuffle_order(..)[k]` of the input.
pub uninterp spec fn shuffle_order(seed: u64, before: Seq<RngCall>, len: nat) -> Seq<int>;

/// The index `SliceRandom::choose` picks among `len` items on a generator
/// seeded with `seed` and used as `before`.
pub uninterp spec fn chosen_index(seed: u64, before: Seq<RngCall>, len: nat) -> int;

/// The word `RngCore::next_u32` gives on a generator seeded with `seed` and
/// used as `before`.
pub uninterp spec fn next_word(seed: u64, before: Seq<RngCall>) -> u32;

/// The generator went from `before` to `after` by the uses `drawn`.
pub open spec fn advanced(before: GameRng, after: GameRng, drawn: Seq<RngCall>) -> bool {
    after.seed_model() == before.seed_model() && after.calls_model() == before.calls_model() + drawn
}

/// `s` rearranged so that item `k` is item `order[k]` of `s`.
pub open spec fn permuted<T>(s: Seq<T>, order: Seq<int>) -> Seq<T> {
    Seq::new(s.len(), |k: int| s[order[k]])
}

/// `StdRng::seed_from_u64`: a fresh generator for `seed`, not used yet.
#[verifier::external_body]
pub fn seeded_rng(seed: u64) -> (r: GameRng)
    ensures
        r.seed_model() == seed,
        r.calls_model() == Seq::<RngCall>::empty(),
{
    GameRng { rng: StdRng::seed_from_u64(seed), seed: Ghost(seed), calls: Ghost(Seq::empty()) }
}

/// `SliceRandom::shuffle`: rearranges `v` in place. Claimed: the result is
/// a permutation of the input, in the order the generator's seed and
/// earlier uses fix (`shuffle_order`).
#[verifier::external_body]
pub(crate) fn shuffle_vec<T>(v: &mut Vec<T>, rng: &mut GameRng)
    ensures
        final(v)@.to_multiset() == old(v)@.to_multiset(),
        final(v)@.len() == old(v)@.len(),
        final(v)@ == permuted(old(v)@, shuffle_order(old(rng).seed_model(), old(rng).calls_model(), old(v)@.len())),
        final(rng).seed_model() == old(rng).seed_model(),
        final(rng).calls_model() == old(rng).calls_model().push(RngCall::Shuffle(old(v)@.len() as usize)),
{
    v.shuffle(&mut rng.rng);
    rng.calls = Ghost(rng.calls@.push(RngCall::Shuffle(v.len())));
}

/// `SliceRandom::choose`: picks one item of `items`, or `None` when the
/// slice is empty. Claimed: `None` exactly on the empty slice; otherwise
/// the item at `chosen_index`, which lies within the slice.
#[verifier::external_body]
pub(crate) fn choose_item<'a, T>(items: &'a [T], rng: &mut GameRng) -> (r: Option<&'a T>)
    ensures
        r is None <==> items@.len() == 0,
        items@.len() > 0 ==> r == Some(&items@[chosen_index(old(rng).seed_model(), old(rng).calls_model(), items@.len())])
            && 0 <= chosen_index(old(rng).seed_model(), old(rng).calls_model(), items@.len()) < items@.len(),
        final(rng).seed_model() == old(rng).seed_model(),
        final(rng).calls_model() == old(rng).calls_model().push(RngCall::Choose(items@.len() as usize)),
{
    let r = items.choose(&mut rng.rng);
    rng.calls = Ghost(rng.calls@.push(RngCall::Choose(items.len())));
    r
}

/// `RngCore::next_u32`: the next 32 bits, `next_word` of the generator's
/// seed and earlier uses.
#[verifier::external_body]
pub(crate) fn next_u32(rng: &mut GameRng) -> (r: u32)
    ensures
        r == next_word(old(rng).seed_model(), old(rng).calls_model()),
        final(rng).seed_model() == old(rng).seed_model(),
        final(rng).calls_model() == old(rng).calls_model().push(RngCall::Word),
{
    let r = rng.rng.next_u32();
    rng.calls = Ghost(rng.calls@.push(RngCall::Word));
    r
}

/// `rand::random::<u64>()`: a value from the thread-local generator, which
/// the operating system seeds. Nothing is claimed about the value.
#[verifier::external_body]
pub(crate) fn random_seed() -> u64 {
    rand::random::<u64>()
}

/// `Rng::gen_range(0..n)` on the thread-local generator: an index below
/// `n`. Claimed: the result is below `n`; which one is left open.
#[verifier::external_body]
pub(crate) fn random_below(n: usize) -> (r: usize)
    requires
        n > 0,
    ensures
        r < n,
{
    rand::thread_rng().gen_range(0..n)
}

} // verus!
