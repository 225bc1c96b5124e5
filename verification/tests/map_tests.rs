use pacman::map::{GameMap, Tile, PU, MAP_HEIGHT, MAP_WIDTH};

#[test]
fn dimensions_are_fixed() {
    assert_eq!(MAP_WIDTH, 28);
    assert_eq!(MAP_HEIGHT, 31);
    let m = GameMap::new();
    assert_eq!(m.tiles.len(), 28 * 31);
}

#[test]
fn initial_pellet_count_matches_grid() {
    let m = GameMap::new();
    let mut dots = 0u32;
    for t in m.tiles.iter() {
        if let Tile::NotWall(PU::Dot) = t {
            dots += 1;
        }
    }
    assert_eq!(m.pellets(), dots);
    assert_eq!(m.pellets(), 242);
}

#[test]
fn get_is_none_out_of_bounds() {
    let m = GameMap::new();
    assert_eq!(m.get(-1, 0), None);
    assert_eq!(m.get(28, 0), None);
    assert_eq!(m.get(0, -1), None);
    assert_eq!(m.get(0, 31), None);
}

#[test]
fn get_reads_tiles() {
    let m = GameMap::new();
    assert_eq!(m.get(0, 0), Some(Tile::Wall));
    assert_eq!(m.get(1, 1), Some(Tile::NotWall(PU::Dot)));
    assert_eq!(m.get(1, 3), Some(Tile::NotWall(PU::PowerUp)));
    assert_eq!(m.get(14, 14), Some(Tile::House));
    assert_eq!(m.get(0, 14), Some(Tile::NotWall(PU::Empty)));
}

#[test]
fn wall_house_and_bounds_classification() {
    let m = GameMap::new();
    assert!(m.is_wall(0, 0));
    assert!(m.is_wall(-1, 14)); // out of bounds counts as wall
    assert!(m.is_wall(14, 14)); // house floor is not passable for the player
    assert!(!m.is_wall(1, 1));
    assert!(m.is_house(14, 14));
    assert!(!m.is_house(0, 0));
    assert!(!m.is_house(-1, 0));
}

#[test]
fn consume_decrements_once_per_pellet() {
    let mut m = GameMap::new();
    let before = m.pellets();
    m.consume(1, 1);
    assert_eq!(m.pellets(), before - 1);
    assert_eq!(m.get(1, 1), Some(Tile::NotWall(PU::Empty)));
    // consuming the now-empty tile is a no-op beyond the decrement check
    m.consume(1, 1);
    assert_eq!(m.pellets(), before - 1);
}

#[test]
fn consume_power_pellet_does_not_change_pellet_count() {
    let mut m = GameMap::new();
    let before = m.pellets();
    m.consume(1, 3);
    assert_eq!(m.pellets(), before);
    assert_eq!(m.get(1, 3), Some(Tile::NotWall(PU::Empty)));
}

#[test]
fn reset_restores_every_pellet() {
    let mut m = GameMap::new();
    m.consume(1, 1);
    m.consume(2, 1);
    m.consume(3, 1);
    assert_eq!(m.pellets(), 239);
    m.reset();
    assert_eq!(m.pellets(), 242);
    assert_eq!(m.get(1, 1), Some(Tile::NotWall(PU::Dot)));
    assert_eq!(m.get(2, 1), Some(Tile::NotWall(PU::Dot)));
    // power pellets are not part of the restored set
    let mut m2 = GameMap::new();
    m2.consume(1, 3);
    m2.reset();
    assert_eq!(m2.get(1, 3), Some(Tile::NotWall(PU::Empty)));
    assert_eq!(m2.pellets(), 242);
}

#[test]
fn remove_all_pellets_clears_count_and_tiles() {
    let mut m = GameMap::new();
    m.remove_all_pellets();
    assert_eq!(m.pellets(), 0);
    assert_eq!(m.get(1, 1), Some(Tile::NotWall(PU::Empty)));
    // a reset afterwards restores the full set
    m.reset();
    assert_eq!(m.pellets(), 242);
}

#[test]
fn wrap_edges_mirror_each_other() {
    // Each row's left edge is open exactly when its right edge is: the
    // tunnel row is open on both sides, every other row is walled on both.
    let m = GameMap::new();
    for y in 0..31 {
        let left_open = matches!(m.get(0, y), Some(Tile::NotWall(_)));
        let right_open = matches!(m.get(27, y), Some(Tile::NotWall(_)));
        assert_eq!(left_open, right_open);
        assert_eq!(left_open, y == 14);
    }
}

#[test]
fn scan_lines_walks_all_rows() {
    let m = GameMap::new();
    let mut sl = m.scan_lines();
    let mut rows = 0;
    while let Some(row) = sl.next() {
        assert_eq!(row.len(), 28);
        if rows == 0 {
            for t in row.iter() {
                assert_eq!(*t, Tile::Wall);
            }
        }
        rows += 1;
    }
    assert_eq!(rows, 31);
    assert_eq!(sl.next(), None);
}
