//! Cards of the standard Sorry! deck.
//!
//! The deck holds 45 cards: five Ones and four of each of Two, Three, Four,
//! Five, Seven, Eight, Ten, Eleven, Twelve and Sorry. There is no 6 or 9.

use vstd::prelude::*;

verus! {

#[derive(Debug, Clone, Copy, PartialEq, Eq, Hash, Structural)]
pub enum Card {
    One,
    Two,
    Three,
    Four,
    Five,
    Seven,
    Eight,
    Ten,
    Eleven,
    Twelve,
    Sorry,
}

/// Face value for forward movement; Sorry has none.
pub open spec fn spec_rank(c: Card) -> Option<u8> {
    match c {
        Card::One => Some(1),
        Card::Two => Some(2),
        Card::Three => Some(3),
        Card::Four => Some(4),
        Card::Five => Some(5),
        Card::Seven => Some(7),
        Card::Eight => Some(8),
        Card::Ten => Some(10),
        Card::Eleven => Some(11),
        Card::Twelve => Some(12),
        Card::Sorry => None,
    }
}

/// `n` copies of card `c`.
pub open spec fn copies(c: Card, n: nat) -> Seq<Card> {
    Seq::new(n, |i: int| c)
}

/// The unshuffled standard deck, in the order it is built.
pub open spec fn spec_standard_deck() -> Seq<Card> {
    copies(Card::One, 5) + copies(Card::Two, 4) + copies(Card::Three, 4) + copies(Card::Four, 4)
        + copies(Card::Five, 4) + copies(Card::Seven, 4) + copies(Card::Eight, 4) + copies(
        Card::Ten,
        4,
    ) + copies(Card::Eleven, 4) + copies(Card::Twelve, 4) + copies(Card::Sorry, 4)
}

/// How many copies of `c` the standard deck holds.
pub open spec fn spec_deck_count(c: Card) -> nat {
    if c == Card::One {
        5
    } else {
        4
    }
}

impl Card {
    pub fn rank(self) -> (r: Option<u8>)
        ensures
            r == spec_rank(self),
    {
        match self {
            Card::One => Some(1),
            Card::Two => Some(2),
            Card::Three => Some(3),
            Card::Four => Some(4),
            Card::Five => Some(5),
            Card::Seven => Some(7),
            Card::Eight => Some(8),
            Card::Ten => Some(10),
            Card::Eleven => Some(11),
            Card::Twelve => Some(12),
            Card::Sorry => None,
        }
    }

    pub fn is_sorry(self) -> (r: bool)
        ensures
            r == (self == Card::Sorry),
    {
        match self {
            Card::Sorry => true,
            _ => false,
        }
    }
}

fn push_copies(deck: &mut Vec<Card>, c: Card, n: usize)
    ensures
        final(deck)@ == old(deck)@ + copies(c, n as nat),
{
    let mut i: usize = 0;
    while i < n
        invariant
            i <= n,
            deck@ == old(deck)@ + copies(c, i as nat),
        decreases n - i,
    {
        deck.push(c);
        i = i + 1;
        assert(deck@ =~= old(deck)@ + copies(c, i as nat));
    }
}

/// A fresh, unshuffled 45-card deck.
pub fn standard_deck() -> (r: Vec<Card>)
    ensures
        r@ == spec_standard_deck(),
{
    let mut deck: Vec<Card> = Vec::new();
    push_copies(&mut deck, Card::One, 5);
    push_copies(&mut deck, Card::Two, 4);
    push_copies(&mut deck, Card::Three, 4);
    push_copies(&mut deck, Card::Four, 4);
    push_copies(&mut deck, Card::Five, 4);
    push_copies(&mut deck, Card::Seven, 4);
    push_copies(&mut deck, Card::Eight, 4);
    push_copies(&mut deck, Card::Ten, 4);
    push_copies(&mut deck, Card::Eleven, 4);
    push_copies(&mut deck, Card::Twelve, 4);
    push_copies(&mut deck, Card::Sorry, 4);
    assert(deck@ =~= spec_standard_deck());
    deck
}

proof fn lemma_copies_count(c: Card, n: nat, d: Card)
    ensures
        copies(c, n).to_multiset().count(d) == if c == d { n } else { 0 },
    decreases n,
{
    broadcast use vstd::multiset::group_multiset_axioms, vstd::seq_lib::group_seq_properties;
    if n > 0 {
        lemma_copies_count(c, (n - 1) as nat, d);
        assert(copies(c, n) =~= copies(c, (n - 1) as nat).push(c));
        copies(c, (n - 1) as nat).to_multiset_ensures();
    } else {
        assert(copies(c, n) =~= Seq::<Card>::empty());
    }
}

proof fn lemma_concat_count(a: Seq<Card>, b: Seq<Card>, d: Card)
    ensures
        (a + b).to_multiset().count(d) == a.to_multiset().count(d) + b.to_multiset().count(d),
{
    broadcast use vstd::seq_lib::group_seq_properties;
    vstd::seq_lib::lemma_multiset_commutative(a, b);
}

/// The standard deck holds 45 cards: five Ones and four of every other card.
pub proof fn lemma_standard_deck_distribution(c: Card)
    ensures
        spec_standard_deck().len() == 45,
        spec_standard_deck().to_multiset().count(c) == spec_deck_count(c),
{
    let s1 = copies(Card::One, 5);
    let s2 = s1 + copies(Card::Two, 4);
    let s3 = s2 + copies(Card::Three, 4);
    let s4 = s3 + copies(Card::Four, 4);
    let s5 = s4 + copies(Card::Five, 4);
    let s6 = s5 + copies(Card::Seven, 4);
    let s7 = s6 + copies(Card::Eight, 4);
    let s8 = s7 + copies(Card::Ten, 4);
    let s9 = s8 + copies(Card::Eleven, 4);
    let s10 = s9 + copies(Card::Twelve, 4);
    let s11 = s10 + copies(Card::Sorry, 4);
    assert(s11 == spec_standard_deck());
    lemma_copies_count(Card::One, 5, c);
    lemma_copies_count(Card::Two, 4, c);
    lemma_copies_count(Card::Three, 4, c);
    lemma_copies_count(Card::Four, 4, c);
    lemma_copies_count(Card::Five, 4, c);
    lemma_copies_count(Card::Seven, 4, c);
    lemma_copies_count(Card::Eight, 4, c);
    lemma_copies_count(Card::Ten, 4, c);
    lemma_copies_count(Card::Eleven, 4, c);
    lemma_copies_count(Card::Twelve, 4, c);
    lemma_copies_count(Card::Sorry, 4, c);
    lemma_concat_count(s1, copies(Card::Two, 4), c);
    lemma_concat_count(s2, copies(Card::Three, 4), c);
    lemma_concat_count(s3, copies(Card::Four, 4), c);
    lemma_concat_count(s4, copies(Card::Five, 4), c);
    lemma_concat_count(s5, copies(Card::Seven, 4), c);
    lemma_concat_count(s6, copies(Card::Eight, 4), c);
    lemma_concat_count(s7, copies(Card::Ten, 4), c);
    lemma_concat_count(s8, copies(Card::Eleven, 4), c);
    lemma_concat_count(s9, copies(Card::Twelve, 4), c);
    lemma_concat_count(s10, copies(Card::Sorry, 4), c);
}

/// No card's face value is 6 or 9.
pub proof fn lemma_no_six_or_nine(c: Card)
    ensures
        spec_rank(c) != Some(6u8),
        spec_rank(c) != Some(9u8),
{
}

} // verus!
