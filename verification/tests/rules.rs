use sorry::rules::{SIDE_LEN, classify, home_id, safety_entry_track, safety_id, start_area_id, track_id};
use sorry::{PlayerId, Space, SpaceId, StandardRules};

#[test]
fn space_count_is_88() {
    let r = StandardRules::new();
    assert_eq!(r.spaces().len(), 88);
}

#[test]
fn classify_round_trips_all_spaces() {
    for i in 0..60 {
        assert_eq!(classify(track_id(i)), Some(Space::Track(i)));
    }
    for p in 0..4 {
        let pid = PlayerId(p);
        assert_eq!(classify(start_area_id(pid)), Some(Space::StartArea(pid)));
        assert_eq!(classify(home_id(pid)), Some(Space::Home(pid)));
        for i in 0..5 {
            assert_eq!(classify(safety_id(pid, i)), Some(Space::Safety(pid, i)));
        }
    }
}

#[test]
fn forward_neighbor_track_wraps() {
    let r = StandardRules::new();
    let p = PlayerId(1);
    assert_eq!(r.forward_neighbor(track_id(59), p), Some(track_id(0)));
}

#[test]
fn forward_neighbor_enters_own_safety() {
    let r = StandardRules::new();
    let p = PlayerId(0);
    // Player 0's safety entry = track 2.
    assert_eq!(r.forward_neighbor(track_id(2), p), Some(safety_id(p, 0)));
    // Other players continue on track.
    assert_eq!(
        r.forward_neighbor(track_id(2), PlayerId(1)),
        Some(track_id(3))
    );
}

#[test]
fn safety_and_home_chain() {
    let r = StandardRules::new();
    let p = PlayerId(2);
    assert_eq!(
        r.forward_neighbor(safety_id(p, 0), p),
        Some(safety_id(p, 1))
    );
    assert_eq!(r.forward_neighbor(safety_id(p, 4), p), Some(home_id(p)));
    assert_eq!(r.forward_neighbor(home_id(p), p), None);
}

#[test]
fn backward_from_safety_returns_to_track() {
    let r = StandardRules::new();
    let p = PlayerId(3);
    assert_eq!(
        r.backward_neighbor(safety_id(p, 0), p),
        Some(track_id(safety_entry_track(p)))
    );
}

#[test]
fn rules_own_color_slide_does_not_trigger() {
    let r = StandardRules::new();
    // Side 0 short slide head is track 1. Player 0's color matches side 0.
    assert!(r.slide_destination(track_id(1), PlayerId(0)).is_none());
}

#[test]
fn other_color_slide_triggers() {
    let r = StandardRules::new();
    let path = r
        .slide_destination(track_id(1), PlayerId(1))
        .expect("slide should trigger");
    assert_eq!(path.end, track_id(4));
    assert_eq!(path.traversed, vec![track_id(2), track_id(3), track_id(4)]);
}

#[test]
fn long_slide_traverses_five_spaces() {
    let r = StandardRules::new();
    let path = r
        .slide_destination(track_id(9), PlayerId(2))
        .expect("slide should trigger");
    assert_eq!(path.end, track_id(13));
    assert_eq!(path.traversed.len(), 4);
}

#[test]
fn board_geometry_has_88_spaces_in_canonical_order() {
    let r = StandardRules::new();
    let spaces = r.spaces();
    assert_eq!(spaces.len(), 88);
    // Tracks first, then Start areas, then Safety zones, then Homes.
    for i in 0..60 {
        assert_eq!(classify(track_id(i as u32)), Some(spaces[i]));
        assert!(matches!(spaces[i], Space::Track(_)));
    }
    for p in 0..4 {
        assert!(matches!(spaces[60 + p], Space::StartArea(_)));
    }
    for i in 64..84 {
        assert!(matches!(spaces[i], Space::Safety(_, _)));
    }
    for p in 0..4 {
        assert!(matches!(spaces[84 + p], Space::Home(_)));
    }
}

#[test]
fn board_geometry_slide_count_is_eight() {
    let r = StandardRules::new();
    assert_eq!(r.slide_layouts().len(), 8);
}

#[test]
fn board_geometry_players_published() {
    let r = StandardRules::new();
    let players = r.player_layouts();
    assert_eq!(players.len(), 4);
    for s in 0..4u8 {
        let p = &players[s as usize];
        assert_eq!(p.player, PlayerId(s));
        assert_eq!(p.start_area, start_area_id(PlayerId(s)));
        assert_eq!(p.home, home_id(PlayerId(s)));
        assert_eq!(p.start_exit, track_id(s as u32 * SIDE_LEN + 4));
    }
}

#[test]
fn board_geometry_adjacency_matches_trait() {
    let r = StandardRules::new();
    // Per-space adjacency vectors are indexed by seat and must match
    // `forward_neighbor` / `backward_neighbor` called directly.
    for i in 0..r.spaces().len() {
        let id = SpaceId(i as u32);
        let (forward, backward) = r.adjacency(id);
        assert_eq!(forward.len(), 4);
        assert_eq!(backward.len(), 4);
        for p in 0..4u8 {
            assert_eq!(forward[p as usize], r.forward_neighbor(id, PlayerId(p)), "forward mismatch at {i} for {p}");
            assert_eq!(backward[p as usize], r.backward_neighbor(id, PlayerId(p)), "backward mismatch at {i} for {p}");
        }
    }
}

#[test]
fn default_rules_are_standard() {
    let r = StandardRules::default();
    assert_eq!(r.name(), "Standard");
    assert!(!r.play_out());
    assert_eq!(r.spaces().len(), 88);
}
