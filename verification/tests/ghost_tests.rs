use pacman::ghost::{Adversary, GhostMode, Ghosts, Interaction, Name};
use pacman::map::GameMap;
use pacman::Direction;

#[test]
fn spawn_states_per_role() {
    let b = Adversary::new(Name::Blinky);
    assert_eq!((b.x(), b.y()), (15, 15));
    assert_eq!(b.house_timer, 2);
    let p = Adversary::new(Name::Pinky);
    assert_eq!((p.x(), p.y()), (15, 14));
    assert_eq!(p.house_timer, 10);
    let i = Adversary::new(Name::Inky);
    assert_eq!((i.x(), i.y()), (14, 15));
    assert_eq!(i.house_timer, 20);
    let c = Adversary::new(Name::Clyde);
    assert_eq!((c.x(), c.y()), (14, 14));
    assert_eq!(c.house_timer, 30);
}

#[test]
fn move_to_takes_the_only_open_corridor() {
    let m = GameMap::new();
    let mut g = Adversary {
        name: Name::Blinky,
        pos: (2, 1),
        last_pos: (1, 1),
        house_timer: 0,
    };
    // neighbors: (3,1) open, (1,1) is the previous position, (2,0) and (2,2) walls
    g.move_to(&m, (27, 1));
    assert_eq!(g.pos, (3, 1));
    assert_eq!(g.last_pos, (2, 1));
    // the chosen move never reverses into the previous position
    assert_ne!(g.pos, (1, 1));
}

#[test]
fn move_to_breaks_ties_by_enumeration_order() {
    let m = GameMap::new();
    let mut g = Adversary {
        name: Name::Blinky,
        pos: (2, 1),
        last_pos: (2, 2),
        house_timer: 0,
    };
    // (3,1) and (1,1) are both open and equidistant from the target below
    // (2,5); the +x candidate is enumerated first and must win.
    g.move_to(&m, (2, 5));
    assert_eq!(g.pos, (3, 1));
}

#[test]
fn move_to_turns_the_corner_rather_than_reversing() {
    let m = GameMap::new();
    // (1,1) corner: (2,1) is the previous position, (0,1) and (1,0) are
    // walls; even though the target lies back along the corridor, the only
    // admissible move is down the other leg.
    let mut g = Adversary {
        name: Name::Blinky,
        pos: (1, 1),
        last_pos: (2, 1),
        house_timer: 0,
    };
    g.move_to(&m, (27, 1));
    assert_eq!(g.pos, (1, 2));
    assert_eq!(g.last_pos, (1, 1));
}

#[test]
fn move_to_wraps_at_the_tunnel() {
    let m = GameMap::new();
    let mut g = Adversary {
        name: Name::Blinky,
        pos: (0, 14),
        last_pos: (1, 14),
        house_timer: 0,
    };
    // the only admissible neighbor is the wrapped column on the far side
    g.move_to(&m, (20, 14));
    assert_eq!(g.pos, (27, 14));
}

#[test]
fn standing_in_the_house_overrides_the_target_with_the_exit() {
    let m = GameMap::new();
    // Released but still inside the house: whatever the caller's target, the
    // adversary paths toward the fixed house exit, here straight up.
    let mut g = Adversary {
        name: Name::Blinky,
        pos: (13, 13),
        last_pos: (13, 14),
        house_timer: 0,
    };
    g.move_to(&m, (0, 31));
    assert_eq!(g.pos, (13, 12));
}

#[test]
fn flee_picks_a_legal_non_reversing_neighbor() {
    let m = GameMap::new();
    for _ in 0..50 {
        let mut g = Adversary {
            name: Name::Pinky,
            pos: (3, 5),
            last_pos: (2, 5),
            house_timer: 0,
        };
        // row 5 is an open corridor; (3,4) and (3,6) are walls
        g.flee(&m);
        assert_eq!(g.pos, (4, 5));
        assert_eq!(g.last_pos, (3, 5));
    }
}

#[test]
fn house_move_stays_on_house_tiles() {
    let m = GameMap::new();
    for _ in 0..50 {
        let mut g = Adversary::new(Name::Blinky);
        let t = g.house_timer;
        g.house_move(&m);
        assert!(m.is_house(g.x(), g.y()));
        assert_eq!(g.house_timer, t - 1);
    }
}

#[test]
fn swarm_starts_in_pursuit() {
    let s = Ghosts::new();
    assert_eq!(s.ghost_mode(), GhostMode::Chase);
    assert_eq!(s.get().len(), 4);
    assert_eq!(s.num_scatters, 2);
}

#[test]
fn frighten_always_wins_and_reloads_the_timer() {
    let mut s = Ghosts::new();
    let m = GameMap::new();
    // force the swarm into the retreat phase first
    s.move_ghosts(&m, (14, 23, Direction::Left));
    assert_eq!(s.ghost_mode(), GhostMode::Scatter);
    s.frightened_timer = 0; // irrelevant: frighten reloads unconditionally
    s.frighten();
    assert_eq!(s.ghost_mode(), GhostMode::Frightened);
    assert_eq!(s.frightened_timer, 30);
    // re-triggering while already fleeing reloads again
    s.frightened_timer = 1;
    s.frighten();
    assert_eq!(s.frightened_timer, 30);
}

#[test]
fn mode_alternates_on_schedule_with_capped_retreats() {
    let m = GameMap::new();
    let mut s = Ghosts::new();
    let plr = (14, 23, Direction::Left);
    // the initial phase timer is zero, so the first advance flips to retreat
    s.move_ghosts(&m, plr);
    assert_eq!(s.ghost_mode(), GhostMode::Scatter);
    assert_eq!(s.num_scatters, 1);
    // one full phase later the swarm pursues again
    for _ in 0..28 {
        assert_eq!(s.ghost_mode(), GhostMode::Scatter);
        s.move_ghosts(&m, plr);
    }
    assert_eq!(s.ghost_mode(), GhostMode::Chase);
    // second retreat phase
    for _ in 0..28 {
        assert_eq!(s.ghost_mode(), GhostMode::Chase);
        s.move_ghosts(&m, plr);
    }
    assert_eq!(s.ghost_mode(), GhostMode::Scatter);
    assert_eq!(s.num_scatters, 0);
    for _ in 0..28 {
        s.move_ghosts(&m, plr);
    }
    assert_eq!(s.ghost_mode(), GhostMode::Chase);
    // the retreat cap is exhausted: the swarm now pursues forever
    for _ in 0..100 {
        s.move_ghosts(&m, plr);
        assert_eq!(s.ghost_mode(), GhostMode::Chase);
    }
}

#[test]
fn flee_mode_expires_back_into_pursuit() {
    let m = GameMap::new();
    let mut s = Ghosts::new();
    s.frighten();
    for _ in 0..29 {
        s.move_ghosts(&m, (14, 23, Direction::Left));
        assert_eq!(s.ghost_mode(), GhostMode::Frightened);
    }
    s.move_ghosts(&m, (14, 23, Direction::Left));
    assert_eq!(s.ghost_mode(), GhostMode::Chase);
}

#[test]
fn overlap_kills_player_outside_flee() {
    let mut s = Ghosts::new();
    s.ghosts[0].pos = (5, 5);
    let r = s.interact_with_player((5, 5));
    assert!(matches!(r, Some(Interaction::KillPlayer)));
}

#[test]
fn previous_position_overlap_also_kills() {
    let mut s = Ghosts::new();
    s.ghosts[2].last_pos = (7, 8);
    let r = s.interact_with_player((7, 8));
    assert!(matches!(r, Some(Interaction::KillPlayer)));
}

#[test]
fn no_overlap_is_no_interaction() {
    let mut s = Ghosts::new();
    assert!(s.interact_with_player((1, 1)).is_none());
    s.frighten();
    assert!(s.interact_with_player((1, 1)).is_none());
}

#[test]
fn overlap_during_flee_kills_the_adversary() {
    let mut s = Ghosts::new();
    s.frighten();
    s.ghosts[0].pos = (5, 5);
    s.ghosts[0].house_timer = 0;
    let r = s.interact_with_player((5, 5));
    match r {
        Some(Interaction::KillGhost(n)) => assert_eq!(n, 1),
        _ => panic!("expected a killed adversary"),
    }
    // the killed adversary respawned with its full house countdown
    assert_eq!(s.ghosts[0].pos, (15, 15));
    assert_eq!(s.ghosts[0].house_timer, 2);
    // the others are untouched
    assert_eq!(s.ghosts[1].pos, (15, 14));
}

#[test]
fn two_overlaps_during_flee_are_both_counted() {
    let mut s = Ghosts::new();
    s.frighten();
    s.ghosts[0].pos = (5, 5);
    s.ghosts[1].last_pos = (5, 5);
    let r = s.interact_with_player((5, 5));
    match r {
        Some(Interaction::KillGhost(n)) => assert_eq!(n, 2),
        _ => panic!("expected killed adversaries"),
    }
}

#[test]
fn chase_targets_per_role() {
    let mut s = Ghosts::new();
    s.ghosts[0].pos = (15, 15);
    s.ghosts[3].pos = (14, 14);
    let t = s.targets((10, 10, Direction::Right));
    assert_eq!(t[0], (10, 10)); // the player itself
    assert_eq!(t[1], (14, 10)); // four tiles ahead
    // two ahead is (12,10); reflected through (15,15) scaled by two
    assert_eq!(t[2], (15 + 2 * (12 - 15), 15 + 2 * (10 - 15)));
    // squared distance 32 is within 64: disengage to the home corner
    assert_eq!(t[3], (0, 31));
}

#[test]
fn clyde_disengages_at_exactly_eight_tiles() {
    // squared distance exactly 64: the player is not yet farther than 8
    // tiles away, so the target is still the home corner
    let mut s = Ghosts::new();
    s.ghosts[3].pos = (10, 10);
    let t = s.targets((18, 10, Direction::Left));
    assert_eq!(t[3], (0, 31));
    // one tile farther and the pursuit begins
    s.ghosts[3].pos = (9, 10);
    let t = s.targets((18, 10, Direction::Left));
    assert_eq!(t[3], (18, 10));
}

#[test]
fn clyde_pursues_when_far() {
    let mut s = Ghosts::new();
    s.ghosts[3].pos = (1, 29);
    let t = s.targets((26, 1, Direction::Left));
    assert_eq!(t[3], (26, 1));
}

#[test]
fn retreat_targets_are_the_fixed_corners() {
    let m = GameMap::new();
    let mut s = Ghosts::new();
    s.move_ghosts(&m, (14, 23, Direction::Left));
    assert_eq!(s.ghost_mode(), GhostMode::Scatter);
    let t = s.targets((14, 23, Direction::Left));
    assert_eq!(t[0], (25, -2));
    assert_eq!(t[1], (2, -2));
    assert_eq!(t[2], (27, 31));
    assert_eq!(t[3], (0, 31));
}

#[test]
fn reset_reconstructs_the_swarm() {
    let m = GameMap::new();
    let mut s = Ghosts::new();
    s.frighten();
    s.move_ghosts(&m, (14, 23, Direction::Left));
    s.reset();
    assert_eq!(s.ghost_mode(), GhostMode::Chase);
    assert_eq!(s.num_scatters, 2);
    assert_eq!(s.ghosts[0].pos, (15, 15));
    assert_eq!(s.ghosts[3].house_timer, 30);
}
