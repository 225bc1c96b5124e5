use pacman::game::{Pacman, Stats};
use pacman::ghost::GhostMode;
use pacman::map::{Tile, PU};
use pacman::Direction;

#[test]
fn new_game_state() {
    let g = Pacman::new();
    let Stats { lives, score, level } = g.stats();
    assert_eq!(lives, 5);
    assert_eq!(score, 0);
    assert_eq!(level, 1);
    assert_eq!(g.player(), (14, 23, Direction::Left));
    assert_eq!(g.map().pellets(), 242);
    assert_eq!(g.ghost_mode(), GhostMode::Chase);
    assert_eq!(g.ghosts().len(), 4);
}

#[test]
fn first_tick_moves_left_and_scores_a_pellet() {
    // The spawn tile's left neighbor holds a pellet worth 10.
    let mut g = Pacman::new();
    g.tick();
    let (x, y, _) = g.player();
    assert_eq!((x, y), (13, 23));
    assert_eq!(g.stats().score, 10);
    assert_eq!(g.map().pellets(), 241);
    assert_eq!(g.map().get(13, 23), Some(Tile::NotWall(PU::Empty)));
}

#[test]
fn blocked_intent_stays_buffered_and_commits_later() {
    let mut g = Pacman::new();
    // Up from spawn is a wall: the intent is recorded but not committed.
    g.set_direction_intent(Direction::Up);
    assert_eq!(g.direction, Direction::Left);
    assert_eq!(g.direction_intent, Direction::Up);
    // Continue left until above an open corridor; the buffered intent then
    // auto-commits during the tick and the player turns up onto a pellet.
    g.set_direction_intent(Direction::Left);
    g.tick();
    g.tick();
    assert_eq!((g.x, g.y), (12, 23));
    g.set_direction_intent(Direction::Up);
    // (12,22) is open, so the turn commits immediately
    assert_eq!(g.direction, Direction::Up);
    g.tick();
    assert_eq!((g.x, g.y), (12, 22));
    assert_eq!(g.stats().score, 30);
    assert_eq!(g.direction, Direction::Up);
}

#[test]
fn walking_into_a_wall_stands_still() {
    let mut g = Pacman::new();
    g.x = 1;
    g.y = 1;
    g.direction = Direction::Up;
    g.direction_intent = Direction::Up;
    g.move_pacman();
    assert_eq!((g.x, g.y), (1, 1));
}

#[test]
fn tunnel_wraps_left_to_right() {
    let mut g = Pacman::new();
    g.x = 0;
    g.y = 14;
    g.direction = Direction::Left;
    g.direction_intent = Direction::Left;
    g.move_pacman();
    assert_eq!((g.x, g.y), (27, 14));
    assert_eq!(g.direction, Direction::Left);
}

#[test]
fn tunnel_wraps_right_to_left() {
    let mut g = Pacman::new();
    g.x = 27;
    g.y = 14;
    g.direction = Direction::Right;
    g.direction_intent = Direction::Right;
    g.move_pacman();
    assert_eq!((g.x, g.y), (0, 14));
    assert_eq!(g.direction, Direction::Right);
}

#[test]
fn power_pellet_frightens_the_swarm() {
    let mut g = Pacman::new();
    // (1,3) holds a power pellet; step down onto it from (1,2)
    g.x = 1;
    g.y = 2;
    g.direction = Direction::Down;
    g.direction_intent = Direction::Down;
    g.move_pacman();
    assert_eq!((g.x, g.y), (1, 3));
    assert_eq!(g.score, 50);
    assert_eq!(g.ghost_mode(), GhostMode::Frightened);
    assert_eq!(g.map().pellets(), 242);
}

#[test]
fn overlap_in_pursuit_kills_the_player_and_respawns_at_start() {
    let mut g = Pacman::new();
    // An adversary waits on the tile the player is about to eat; after both
    // move, the player overlaps the adversary's previous position (a
    // swap-through collision) and loses a life.
    g.ghosts.ghosts[0].pos = (13, 23);
    g.ghosts.ghosts[0].house_timer = 0;
    g.tick();
    assert_eq!(g.stats().lives, 4);
    assert_eq!((g.x, g.y), (14, 23));
    // the pellet at (13,23) was still eaten on the way
    assert_eq!(g.stats().score, 10);
}

#[test]
fn overlap_while_fleeing_kills_the_adversary_and_scores() {
    let mut g = Pacman::new();
    g.ghosts.frighten();
    g.ghosts.ghosts[0].pos = (13, 23);
    g.ghosts.ghosts[0].house_timer = 0;
    g.tick();
    assert_eq!(g.stats().lives, 5);
    // pellet (10) plus one adversary (200)
    assert_eq!(g.stats().score, 210);
    // the adversary is back at spawn with its house countdown restored
    assert_eq!(g.ghosts.ghosts[0].pos, (15, 15));
    assert_eq!(g.ghosts.ghosts[0].house_timer, 2);
}

#[test]
fn frozen_game_ignores_input_and_ticks() {
    let mut g = Pacman::new();
    g.lives = 0;
    g.set_direction_intent(Direction::Up);
    assert_eq!(g.direction_intent, Direction::Left);
    let before_x = g.x;
    g.tick();
    assert_eq!(g.x, before_x);
    assert_eq!(g.stats().score, 0);
    assert_eq!(g.ticks, 1);
}

#[test]
fn cleared_map_advances_the_level() {
    let mut g = Pacman::new();
    g.score = 77;
    g.lives = 3;
    g.x = 5;
    g.y = 5;
    g.level_up();
    assert_eq!(g.map().pellets(), 0);
    g.tick();
    // the map's pellets are restored, the swarm is reconstructed, the player
    // is back at spawn; score and lives persist
    assert_eq!(g.stats().level, 2);
    assert_eq!(g.map().pellets(), 242);
    assert_eq!((g.x, g.y), (14, 23));
    assert_eq!(g.stats().score, 77);
    assert_eq!(g.stats().lives, 3);
    assert_eq!(g.ghost_mode(), GhostMode::Chase);
    assert_eq!(g.ghosts.ghosts[0].pos, (15, 15));
    assert_eq!(g.ghosts.num_scatters, 2);
}

#[test]
fn ghost_targets_reports_four_targets() {
    let g = Pacman::new();
    let t = g.ghost_targets();
    assert_eq!(t.len(), 4);
    // pursuit mode: the first adversary targets the player directly
    assert_eq!(t[0], (14, 23));
}

#[test]
fn ticks_accumulate() {
    let mut g = Pacman::new();
    g.tick();
    g.tick();
    g.tick();
    assert_eq!(g.ticks, 3);
}
