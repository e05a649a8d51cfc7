//! Concrete cases of the laws on what a move does to the board, and on
//! where spaces sit.

use sorry::strategies::util::simulate_positions;
use sorry::{BoardState, Card, Move, PawnId, PlayerId, Space, SpaceId, StandardRules, apply_move, legal_moves};

fn fresh_board(rules: &StandardRules, num_players: usize) -> BoardState {
    let start_areas: Vec<_> = (0..num_players as u8)
        .map(|p| rules.start_area(PlayerId(p)))
        .collect();
    BoardState::fresh(num_players, rules.pawns_per_player(), &start_areas)
}

fn positions(board: &BoardState, num_players: usize) -> Vec<Vec<SpaceId>> {
    (0..num_players as u8)
        .map(|p| board.pawns_of(PlayerId(p)).to_vec())
        .collect()
}

#[test]
fn slide_move_accounts_for_every_pawn() {
    let rules = StandardRules::new();
    let mut board = fresh_board(&rules, 4);
    let p1 = PlayerId(1);
    board.set_position(p1, PawnId(0), rules.track_space(59));
    board.set_position(p1, PawnId(1), rules.track_space(2));
    board.set_position(PlayerId(2), PawnId(0), rules.track_space(3));
    board.set_position(PlayerId(3), PawnId(0), rules.track_space(4));
    board.set_position(PlayerId(3), PawnId(1), rules.track_space(40));
    let before = positions(&board, 4);

    let mv = legal_moves(&rules, &board, p1, Card::Two)
        .into_iter()
        .find(|m| matches!(m, Move::Advance { pawn, to, .. } if *pawn == PawnId(0) && *to == rules.track_space(1)))
        .expect("advance onto the slide head");
    let (bumps, slides) = apply_move(&rules, &mut board, p1, &mv);
    let after = positions(&board, 4);

    assert_eq!(slides.len(), 1);
    assert_eq!(board.position(p1, PawnId(0)), rules.track_space(4));
    assert_eq!(bumps.len(), 3);
    for b in &bumps {
        assert!(!(b.player == p1 && b.pawn == PawnId(0)));
        assert_eq!(b.to, rules.start_area(b.player));
        assert_eq!(board.position(b.player, b.pawn), rules.start_area(b.player));
    }
    for p in 0..4u8 {
        for i in 0..4u8 {
            let named = bumps.iter().any(|b| b.player == PlayerId(p) && b.pawn == PawnId(i));
            let mover = p == 1 && i == 0;
            if !named && !mover {
                assert_eq!(after[p as usize][i as usize], before[p as usize][i as usize]);
            }
        }
    }
}

#[test]
fn plain_move_without_slide_has_no_slide_event() {
    let rules = StandardRules::new();
    let mut board = fresh_board(&rules, 4);
    let p0 = PlayerId(0);
    board.set_position(p0, PawnId(0), rules.track_space(20));
    board.set_position(PlayerId(2), PawnId(3), rules.track_space(23));
    let mv = legal_moves(&rules, &board, p0, Card::Three)
        .into_iter()
        .find(|m| matches!(m, Move::Advance { pawn, .. } if *pawn == PawnId(0)))
        .expect("advance by three");
    let (bumps, slides) = apply_move(&rules, &mut board, p0, &mv);
    assert!(slides.is_empty());
    assert_eq!(bumps.len(), 1);
    assert_eq!(board.position(PlayerId(2), PawnId(3)), rules.start_area(PlayerId(2)));
    assert_eq!(board.position(p0, PawnId(0)), rules.track_space(23));
}

#[test]
fn swap_trades_two_places_and_touches_nothing_else() {
    let rules = StandardRules::new();
    let mut board = fresh_board(&rules, 3);
    let p0 = PlayerId(0);
    board.set_position(p0, PawnId(2), rules.track_space(10));
    board.set_position(PlayerId(2), PawnId(1), rules.track_space(50));
    board.set_position(PlayerId(1), PawnId(0), rules.track_space(30));
    let before = positions(&board, 3);
    let mv = Move::SwapEleven { my_pawn: PawnId(2), their_player: PlayerId(2), their_pawn: PawnId(1) };
    let legal = legal_moves(&rules, &board, p0, Card::Eleven);
    assert!(legal.contains(&mv));
    let (bumps, slides) = apply_move(&rules, &mut board, p0, &mv);
    assert!(bumps.is_empty());
    assert!(slides.is_empty());
    let after = positions(&board, 3);
    assert_eq!(after[0][2], rules.track_space(50));
    assert_eq!(after[2][1], rules.track_space(10));
    for p in 0..3usize {
        for i in 0..4usize {
            if !((p == 0 && i == 2) || (p == 2 && i == 1)) {
                assert_eq!(after[p][i], before[p][i]);
            }
        }
    }
}

#[test]
fn pass_leaves_the_board_as_it_was() {
    let rules = StandardRules::new();
    let mut board = fresh_board(&rules, 2);
    let before = positions(&board, 2);
    let legal = legal_moves(&rules, &board, PlayerId(0), Card::Three);
    assert_eq!(legal, vec![Move::Pass]);
    let (bumps, slides) = apply_move(&rules, &mut board, PlayerId(0), &Move::Pass);
    assert!(bumps.is_empty());
    assert!(slides.is_empty());
    assert_eq!(positions(&board, 2), before);
}

#[test]
fn every_swap_and_sorry_target_is_offered() {
    let rules = StandardRules::new();
    let mut board = fresh_board(&rules, 4);
    let p0 = PlayerId(0);
    board.set_position(p0, PawnId(0), rules.track_space(7));
    board.set_position(PlayerId(1), PawnId(3), rules.track_space(33));
    board.set_position(PlayerId(3), PawnId(0), rules.track_space(45));
    let swaps = legal_moves(&rules, &board, p0, Card::Eleven);
    for (q, j) in [(1u8, 3u8), (3, 0)] {
        assert!(swaps.contains(&Move::SwapEleven { my_pawn: PawnId(0), their_player: PlayerId(q), their_pawn: PawnId(j) }));
    }
    let sorries = legal_moves(&rules, &board, p0, Card::Sorry);
    assert!(sorries.contains(&Move::Sorry {
        my_pawn: PawnId(1),
        their_player: PlayerId(1),
        their_pawn: PawnId(3),
        to: rules.track_space(33),
    }));
    assert!(sorries.contains(&Move::Sorry {
        my_pawn: PawnId(1),
        their_player: PlayerId(3),
        their_pawn: PawnId(0),
        to: rules.track_space(45),
    }));
}

#[test]
fn every_split_of_seven_is_offered() {
    let rules = StandardRules::new();
    let mut board = fresh_board(&rules, 2);
    let p0 = PlayerId(0);
    board.set_position(p0, PawnId(0), rules.track_space(20));
    board.set_position(p0, PawnId(1), rules.track_space(40));
    let legal = legal_moves(&rules, &board, p0, Card::Seven);
    for a in 1..=6u32 {
        let found = legal.iter().any(|m| match m {
            Move::SplitSeven { first, second } => {
                first.pawn == PawnId(0)
                    && second.pawn == PawnId(1)
                    && first.steps as u32 == a
                    && first.to == rules.track_space(20 + a)
                    && second.to == rules.track_space(40 + 7 - a)
            }
            _ => false,
        });
        assert!(found, "split {a}/{} missing", 7 - a);
    }
}

#[test]
fn track_and_safety_spaces_classify_back() {
    let rules = StandardRules::new();
    for i in [0u32, 17, 59] {
        let s = rules.track_space(i);
        assert_eq!(s, SpaceId(i));
        assert_eq!(rules.classify_space(s), Some(Space::Track(i)));
    }
    for q in 0..4u8 {
        for slot in 0..5u8 {
            let s = rules.safety_space(PlayerId(q), slot);
            assert_eq!(s, SpaceId(64 + 5 * q as u32 + slot as u32));
            assert_eq!(rules.classify_space(s), Some(Space::Safety(PlayerId(q), slot)));
        }
    }
}

fn view_with(positions: Vec<Vec<SpaceId>>, me: PlayerId) -> sorry::StrategyView {
    sorry::StrategyView {
        my_player: me,
        num_players: positions.len(),
        hand: Vec::new(),
        drawn_card: None,
        pawn_positions: positions,
        discard: Vec::new(),
        deck_remaining: 45,
        current_player_turn: me,
        last_bump_victim: None,
    }
}

#[test]
fn simulated_positions_change_only_the_named_pawns() {
    let rules = StandardRules::new();
    let me = PlayerId(0);
    let mut pos: Vec<Vec<SpaceId>> = (0..3u8).map(|p| vec![rules.start_area(PlayerId(p)); 4]).collect();
    pos[0][1] = rules.track_space(12);
    pos[2][3] = rules.track_space(40);
    let view = view_with(pos.clone(), me);

    let swap = Move::SwapEleven { my_pawn: PawnId(1), their_player: PlayerId(2), their_pawn: PawnId(3) };
    let r = simulate_positions(&view, me, &swap);
    let mut expected = pos.clone();
    expected[0][1] = rules.track_space(40);
    expected[2][3] = rules.track_space(12);
    assert_eq!(r, expected);

    let sorry = Move::Sorry {
        my_pawn: PawnId(0),
        their_player: PlayerId(2),
        their_pawn: PawnId(3),
        to: rules.track_space(40),
    };
    let r = simulate_positions(&view, me, &sorry);
    let mut expected = pos.clone();
    expected[0][0] = rules.track_space(40);
    expected[2][3] = SpaceId(u32::MAX);
    assert_eq!(r, expected);

    let adv = Move::Advance { pawn: PawnId(1), card_value: 5, to: rules.track_space(17) };
    let r = simulate_positions(&view, me, &adv);
    let mut expected = pos.clone();
    expected[0][1] = rules.track_space(17);
    assert_eq!(r, expected);

    assert_eq!(simulate_positions(&view, me, &Move::Pass), pos);
    assert_eq!(view.pawn_positions, pos);
}
