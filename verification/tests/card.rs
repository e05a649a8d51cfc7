use sorry::{Card, standard_deck};

#[test]
fn standard_deck_has_45_cards() {
    assert_eq!(standard_deck().len(), 45);
}

#[test]
fn standard_deck_distribution_matches_hasbro() {
    let deck = standard_deck();
    let count = |c: Card| deck.iter().filter(|x| **x == c).count();
    assert_eq!(count(Card::One), 5);
    for c in [
        Card::Two,
        Card::Three,
        Card::Four,
        Card::Five,
        Card::Seven,
        Card::Eight,
        Card::Ten,
        Card::Eleven,
        Card::Twelve,
        Card::Sorry,
    ] {
        assert_eq!(count(c), 4, "expected 4 of {c:?}");
    }
}

#[test]
fn no_six_or_nine_exists_in_enum() {
    // Sanity check: ranks never return 6 or 9.
    for c in [
        Card::One,
        Card::Two,
        Card::Three,
        Card::Four,
        Card::Five,
        Card::Seven,
        Card::Eight,
        Card::Ten,
        Card::Eleven,
        Card::Twelve,
        Card::Sorry,
    ] {
        if let Some(r) = c.rank() {
            assert_ne!(r, 6);
            assert_ne!(r, 9);
        }
    }
}

#[test]
fn sorry_card_has_no_rank() {
    assert!(Card::Sorry.is_sorry());
    assert!(Card::Sorry.rank().is_none());
}
