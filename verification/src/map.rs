use vstd::prelude::*;
use vstd::string::StrSliceExecFns;

verus! {

pub const MAP_WIDTH: usize = 28;

pub const MAP_HEIGHT: usize = 31;

/// A consumable item occupying an open tile.
#[derive(Copy, Clone, Debug, PartialEq, Eq, Structural)]
pub enum PU {
    Dot,
    PowerUp,
    Empty,
}

/// One grid cell's terrain class: a wall, an open tile carrying a
/// collectible, or a floor tile of the adversaries' house.
#[derive(Copy, Clone, Debug, PartialEq, Eq, Structural)]
pub enum Tile {
    Wall,
    NotWall(PU),
    House,
}

/// The character code of the layout description: `#` wall, `.` pellet,
/// `X` power pellet, space open/empty, `H` house floor. Anything else is
/// unrecognized and yields no tile.
pub open spec fn tile_of_char(c: char) -> Option<Tile> {
    if c == '#' {
        Some(Tile::Wall)
    } else if c == '.' {
        Some(Tile::NotWall(PU::Dot))
    } else if c == ' ' {
        Some(Tile::NotWall(PU::Empty))
    } else if c == 'X' {
        Some(Tile::NotWall(PU::PowerUp))
    } else if c == 'H' {
        Some(Tile::House)
    } else {
        None
    }
}

/// Tiles denoted by a row of layout characters; unrecognized characters are
/// skipped so that they cannot shift the tiles that follow them.
pub open spec fn parse_row(s: Seq<char>) -> Seq<Tile>
    decreases s.len(),
{
    if s.len() == 0 {
        Seq::empty()
    } else {
        let rest = parse_row(s.drop_last());
        match tile_of_char(s.last()) {
            Some(t) => rest.push(t),
            None => rest,
        }
    }
}

/// Row `y` of the fixed layout description.
pub open spec fn spec_row(y: int) -> Seq<char> {
    if y == 0 {
        "############################"@
    } else if y == 1 {
        "#............##............#"@
    } else if y == 2 {
        "#.####.#####.##.#####.####.#"@
    } else if y == 3 {
        "#X####.#####.##.#####.####X#"@
    } else if y == 4 {
        "#.####.#####.##.#####.####.#"@
    } else if y == 5 {
        "#..........................#"@
    } else if y == 6 {
        "#.####.##.########.##.####.#"@
    } else if y == 7 {
        "#.####.##.########.##.####.#"@
    } else if y == 8 {
        "#......##....##....##......#"@
    } else if y == 9 {
        "######.##### ## #####.######"@
    } else if y == 10 {
        "######.##### ## #####.######"@
    } else if y == 11 {
        "######.##          ##.######"@
    } else if y == 12 {
        "######.## ###HH### ##.######"@
    } else if y == 13 {
        "######.## #HHHHHH# ##.######"@
    } else if y == 14 {
        "      .   #HHHHHH#   .      "@
    } else if y == 15 {
        "######.## #HHHHHH# ##.######"@
    } else if y == 16 {
        "######.## ######## ##.######"@
    } else if y == 17 {
        "######.##          ##.######"@
    } else if y == 18 {
        "######.## ######## ##.######"@
    } else if y == 19 {
        "######.## ######## ##.######"@
    } else if y == 20 {
        "#............##............#"@
    } else if y == 21 {
        "#.####.#####.##.#####.####.#"@
    } else if y == 22 {
        "#.####.#####.##.#####.####.#"@
    } else if y == 23 {
        "#X..##................##..X#"@
    } else if y == 24 {
        "###.##.##.########.##.##.###"@
    } else if y == 25 {
        "###.##.##.########.##.##.###"@
    } else if y == 26 {
        "#......##....##....##......#"@
    } else if y == 27 {
        "#.##########.##.##########.#"@
    } else if y == 28 {
        "#.##########.##.##########.#"@
    } else if y == 29 {
        "#..........................#"@
    } else if y == 30 {
        "############################"@
    } else {
        Seq::empty()
    }
}

/// The tiles of the first `n` layout rows, concatenated in row-major order.
pub open spec fn layout_prefix(n: int) -> Seq<Tile>
    decreases n,
{
    if n <= 0 {
        Seq::empty()
    } else {
        layout_prefix(n - 1) + parse_row(spec_row(n - 1))
    }
}

/// The full reference layout as a flat row-major tile sequence.
pub open spec fn layout() -> Seq<Tile> {
    layout_prefix(MAP_HEIGHT as int)
}

pub open spec fn is_dot(t: Tile) -> bool {
    t == Tile::NotWall(PU::Dot)
}

/// How many tiles of `s` currently hold a pellet.
pub open spec fn dots(s: Seq<Tile>) -> nat
    decreases s.len(),
{
    if s.len() == 0 {
        0
    } else {
        dots(s.drop_last()) + if is_dot(s.last()) {
            1nat
        } else {
            0nat
        }
    }
}

/// A row all of whose characters are recognized parses to one tile per
/// character.
proof fn lemma_parse_row_len(s: Seq<char>)
    requires
        forall|i: int| 0 <= i < s.len() ==> tile_of_char(s[i]) is Some,
    ensures
        parse_row(s).len() == s.len(),
        forall|i: int| 0 <= i < s.len() ==> Some(#[trigger] parse_row(s)[i]) == tile_of_char(s[i]),
    decreases s.len(),
{
    if s.len() > 0 {
        let s0 = s.drop_last();
        lemma_parse_row_len(s0);
        assert forall|i: int| 0 <= i < s.len() implies Some(#[trigger] parse_row(s)[i])
            == tile_of_char(s[i]) by {
            if i < s.len() - 1 {
                assert(parse_row(s)[i] == parse_row(s0)[i]);
                assert(s0[i] == s[i]);
            }
        }
    }
}

/// Every character of every layout row is recognized, so each row parses to
/// exactly 28 tiles.
proof fn lemma_row_len(y: int)
    requires
        0 <= y < 31,
    ensures
        spec_row(y).len() == 28,
        parse_row(spec_row(y)).len() == 28,
        spec_row(y)[0] == (if y == 14 {
            ' '
        } else {
            '#'
        }),
        spec_row(y)[27] == (if y == 14 {
            ' '
        } else {
            '#'
        }),
        forall|i: int|
            0 <= i < 28 ==> Some(#[trigger] parse_row(spec_row(y))[i]) == tile_of_char(
                spec_row(y)[i],
            ),
{
    if y == 0 || y == 30 {
        reveal_strlit("############################");
    } else if y == 1 || y == 20 {
        reveal_strlit("#............##............#");
    } else if y == 2 || y == 4 || y == 21 || y == 22 {
        reveal_strlit("#.####.#####.##.#####.####.#");
    } else if y == 3 {
        reveal_strlit("#X####.#####.##.#####.####X#");
    } else if y == 5 || y == 29 {
        reveal_strlit("#..........................#");
    } else if y == 6 || y == 7 {
        reveal_strlit("#.####.##.########.##.####.#");
    } else if y == 8 || y == 26 {
        reveal_strlit("#......##....##....##......#");
    } else if y == 9 || y == 10 {
        reveal_strlit("######.##### ## #####.######");
    } else if y == 11 || y == 17 {
        reveal_strlit("######.##          ##.######");
    } else if y == 12 {
        reveal_strlit("######.## ###HH### ##.######");
    } else if y == 13 || y == 15 {
        reveal_strlit("######.## #HHHHHH# ##.######");
    } else if y == 14 {
        reveal_strlit("      .   #HHHHHH#   .      ");
    } else if y == 16 || y == 18 || y == 19 {
        reveal_strlit("######.## ######## ##.######");
    } else if y == 23 {
        reveal_strlit("#X..##................##..X#");
    } else if y == 24 || y == 25 {
        reveal_strlit("###.##.##.########.##.##.###");
    } else {
        reveal_strlit("#.##########.##.##########.#");
    }
    assert(spec_row(y).len() == 28);
    assert(forall|i: int| 0 <= i < 28 ==> tile_of_char(spec_row(y)[i]) is Some);
    lemma_parse_row_len(spec_row(y));
}

proof fn lemma_layout_prefix_len(n: int)
    requires
        0 <= n <= 31,
    ensures
        layout_prefix(n).len() == 28 * n,
    decreases n,
{
    if n > 0 {
        lemma_layout_prefix_len(n - 1);
        lemma_row_len(n - 1);
    }
}

/// The compiled-in layout is well formed: it parses to exactly one tile per
/// grid cell. A malformed layout would be a construction-time fault; this
/// discharges that statically.
pub proof fn lemma_layout_len()
    ensures
        layout().len() == 868,
{
    lemma_layout_prefix_len(31);
}

/// Indexing into the concatenated layout selects into the row the index
/// falls in.
proof fn lemma_prefix_index(n: int, y: int, x: int)
    requires
        0 <= y < n <= 31,
        0 <= x < 28,
    ensures
        layout_prefix(n).len() == 28 * n,
        layout_prefix(n)[y * 28 + x] == parse_row(spec_row(y))[x],
    decreases n,
{
    lemma_layout_prefix_len(n);
    lemma_layout_prefix_len(n - 1);
    lemma_row_len(n - 1);
    if y == n - 1 {
        assert(layout_prefix(n)[y * 28 + x] == parse_row(spec_row(n - 1))[x]);
    } else {
        lemma_prefix_index(n - 1, y, x);
        assert(layout_prefix(n)[y * 28 + x] == layout_prefix(n - 1)[y * 28 + x]);
    }
}

/// The layout's flat index `y * 28 + x` holds the tile of row `y`, column
/// `x`.
pub proof fn lemma_layout_index(y: int, x: int)
    requires
        0 <= y < 31,
        0 <= x < 28,
    ensures
        layout()[y * 28 + x] == parse_row(spec_row(y))[x],
{
    lemma_prefix_index(31, y, x);
}

/// A filtering parser never produces more tiles than characters.
proof fn lemma_parse_row_len_le(s: Seq<char>)
    ensures
        parse_row(s).len() <= s.len(),
    decreases s.len(),
{
    if s.len() > 0 {
        lemma_parse_row_len_le(s.drop_last());
    }
}

/// The flat row-major index of a coordinate pair.
pub open spec fn cidx(c: (usize, usize)) -> int {
    c.1 as int * 28 + c.0 as int
}

/// The coordinates, in row-major scan order, of every tile of `s` that holds
/// a pellet.
pub open spec fn dot_coords(s: Seq<Tile>) -> Seq<(usize, usize)>
    decreases s.len(),
{
    if s.len() == 0 {
        Seq::empty()
    } else {
        let rest = dot_coords(s.drop_last());
        if is_dot(s.last()) {
            rest.push(((((s.len() - 1) % 28) as usize, ((s.len() - 1) / 28) as usize)))
        } else {
            rest
        }
    }
}

/// `dot_coords` records exactly the pellet positions: each entry indexes a
/// pellet tile, entries are strictly increasing in row-major order, and every
/// pellet tile is recorded.
proof fn lemma_dot_coords_exact(s: Seq<Tile>)
    requires
        s.len() <= usize::MAX,
    ensures
        forall|k: int|
            0 <= k < dot_coords(s).len() ==> 0 <= cidx(#[trigger] dot_coords(s)[k]) < s.len()
                && is_dot(s[cidx(dot_coords(s)[k])]) && dot_coords(s)[k].0 < 28,
        forall|k1: int, k2: int|
            0 <= k1 < k2 < dot_coords(s).len() ==> cidx(#[trigger] dot_coords(s)[k1]) < cidx(
                #[trigger] dot_coords(s)[k2],
            ),
        forall|i: int|
            0 <= i < s.len() && is_dot(s[i]) ==> exists|k: int|
                0 <= k < dot_coords(s).len() && cidx(#[trigger] dot_coords(s)[k]) == i,
    decreases s.len(),
{
    if s.len() > 0 {
        let s0 = s.drop_last();
        lemma_dot_coords_exact(s0);
        assert(forall|i: int| 0 <= i < s0.len() ==> s0[i] == s[i]);
        assert forall|i: int| 0 <= i < s.len() && is_dot(s[i]) implies exists|k: int|
            0 <= k < dot_coords(s).len() && cidx(#[trigger] dot_coords(s)[k]) == i by {
            if i < s.len() - 1 {
                let k0 = choose|k: int|
                    0 <= k < dot_coords(s0).len() && cidx(#[trigger] dot_coords(s0)[k]) == i;
                assert(dot_coords(s)[k0] == dot_coords(s0)[k0]);
            } else {
                let kl = dot_coords(s).len() - 1;
                assert(cidx(dot_coords(s)[kl]) == 28 * ((s.len() - 1) / 28) + (s.len() - 1) % 28);
                assert(cidx(dot_coords(s)[kl]) == i);
            }
        }
    }
}

/// Counting pellets is insensitive to where an update leaves them: updating
/// position `i` exchanges its old contribution for the new one.
proof fn lemma_dots_update(s: Seq<Tile>, i: int, t: Tile)
    requires
        0 <= i < s.len(),
    ensures
        dots(s.update(i, t)) + (if is_dot(s[i]) {
            1nat
        } else {
            0nat
        }) == dots(s) + (if is_dot(t) {
            1nat
        } else {
            0nat
        }),
    decreases s.len(),
{
    let su = s.update(i, t);
    assert(su.len() == s.len());
    if i == s.len() - 1 {
        assert(su.drop_last() =~= s.drop_last());
        assert(su.last() == t);
    } else {
        assert(su.drop_last() =~= s.drop_last().update(i, t));
        assert(su.last() == s.last());
        lemma_dots_update(s.drop_last(), i, t);
    }
}

/// A sequence with no pellet tile counts zero pellets.
proof fn lemma_dots_none(s: Seq<Tile>)
    requires
        forall|i: int| 0 <= i < s.len() ==> !is_dot(#[trigger] s[i]),
    ensures
        dots(s) == 0,
    decreases s.len(),
{
    if s.len() > 0 {
        assert(forall|i: int| 0 <= i < s.len() - 1 ==> s.drop_last()[i] == s[i]);
        lemma_dots_none(s.drop_last());
    }
}

/// If the pellet tiles of `s` are exactly the positions listed by a strictly
/// increasing coordinate list, the pellet count equals the list's length.
proof fn lemma_dots_exact(s: Seq<Tile>, coords: Seq<(usize, usize)>)
    requires
        forall|k: int| 0 <= k < coords.len() ==> 0 <= cidx(#[trigger] coords[k]) < s.len(),
        forall|k1: int, k2: int|
            0 <= k1 < k2 < coords.len() ==> cidx(#[trigger] coords[k1]) < cidx(
                #[trigger] coords[k2],
            ),
        forall|i: int|
            0 <= i < s.len() ==> (is_dot(#[trigger] s[i]) <==> exists|k: int|
                0 <= k < coords.len() && cidx(#[trigger] coords[k]) == i),
    ensures
        dots(s) == coords.len(),
    decreases s.len(),
{
    if s.len() == 0 {
        if coords.len() > 0 {
            assert(0 <= cidx(coords[0]) < s.len());
        }
        assert(coords.len() == 0);
    } else {
        let n = s.len() - 1;
        let s0 = s.drop_last();
        assert(forall|i: int| 0 <= i < n ==> s0[i] == s[i]);
        if is_dot(s[n]) {
            let kl = choose|k: int| 0 <= k < coords.len() && cidx(#[trigger] coords[k]) == n;
            assert(kl == coords.len() - 1) by {
                if kl < coords.len() - 1 {
                    assert(cidx(coords[kl]) < cidx(coords[coords.len() - 1]));
                }
            }
            let c0 = coords.drop_last();
            assert forall|i: int| 0 <= i < n implies (is_dot(s0[i]) <==> exists|k: int|
                0 <= k < c0.len() && cidx(#[trigger] c0[k]) == i) by {
                if is_dot(s0[i]) {
                    let k = choose|k: int| 0 <= k < coords.len() && cidx(#[trigger] coords[k]) == i;
                    assert(k != coords.len() - 1);
                    assert(c0[k] == coords[k]);
                }
            }
            lemma_dots_exact(s0, c0);
        } else {
            assert forall|k: int| 0 <= k < coords.len() implies 0 <= cidx(#[trigger] coords[k])
                < n by {
                if cidx(coords[k]) == n {
                    assert(is_dot(s[n]));
                }
            }
            lemma_dots_exact(s0, coords);
        }
    }
}

/// A pellet count never exceeds the number of tiles counted.
proof fn lemma_dots_le(s: Seq<Tile>)
    ensures
        dots(s) <= s.len(),
    decreases s.len(),
{
    if s.len() > 0 {
        lemma_dots_le(s.drop_last());
    }
}

/// Whether `(x, y)` lies on the 28-by-31 grid.
pub open spec fn in_bounds(x: int, y: int) -> bool {
    0 <= x < 28 && 0 <= y < 31
}

/// Pellet-count invariant: on any valid map — and every map the library
/// hands out or mutates is valid — the stored count equals the number of
/// tiles currently holding a pellet, whatever sequence of consumptions and
/// resets produced it.
pub proof fn lemma_pellet_count_invariant(m: GameMap)
    requires
        m.wf(),
    ensures
        m.pellet_count == dots(m.tiles@),
{
}

/// The tile grid: a flat row-major array of tiles, the count of pellets it
/// currently holds, and the original coordinates of every pellet, kept so a
/// level-advance reset can restore them.
pub struct GameMap {
    pub tiles: Vec<Tile>,
    pub pellet_count: u32,
    pub pellet_coords: Vec<(usize, usize)>,
}

impl GameMap {
    /// Validity: the grid fills 28 by 31 exactly, `pellet_count` equals the
    /// number of tiles currently holding a pellet, and every such tile is
    /// recorded in `pellet_coords`, whose entries are in-bounds and strictly
    /// increasing in row-major order.
    pub open spec fn wf(self) -> bool {
        &&& self.tiles@.len() == 868
        &&& self.pellet_count == dots(self.tiles@)
        &&& forall|i: int|
            0 <= i < 868 && is_dot(self.tiles@[i]) ==> exists|k: int|
                0 <= k < self.pellet_coords@.len() && cidx(#[trigger] self.pellet_coords@[k]) == i
        &&& forall|k: int|
            0 <= k < self.pellet_coords@.len() ==> 0 <= cidx(#[trigger] self.pellet_coords@[k])
                < 868 && self.pellet_coords@[k].0 < 28
        &&& forall|k1: int, k2: int|
            0 <= k1 < k2 < self.pellet_coords@.len() ==> cidx(
                #[trigger] self.pellet_coords@[k1],
            ) < cidx(#[trigger] self.pellet_coords@[k2])
    }

    /// The tile at `(x, y)`; meaningful only in bounds.
    pub open spec fn tile_at(self, x: int, y: int) -> Tile {
        self.tiles@[y * 28 + x]
    }

    pub open spec fn spec_get(self, x: int, y: int) -> Option<Tile> {
        if in_bounds(x, y) {
            Some(self.tile_at(x, y))
        } else {
            None
        }
    }

    /// The two wrap columns mirror each other: a row's left edge is open
    /// exactly when its right edge is. The reference layout has this shape
    /// (both edges are walls everywhere but the tunnel row).
    pub open spec fn wrap_edges_symmetric(self) -> bool {
        forall|y: int|
            0 <= y < 31 ==> ((#[trigger] self.tile_at(0, y)) is NotWall <==> self.tile_at(
                27,
                y,
            ) is NotWall)
    }

    /// Shape facts that every map evolved from the reference layout keeps,
    /// because no mutation ever turns an open tile into a wall or touches a
    /// wrap-edge column: the wrap edges mirror each other, the player's
    /// spawn tile at (14, 23) is open, and no recorded pellet coordinate
    /// lies on a wrap-edge column.
    pub open spec fn playfield_wf(self) -> bool {
        &&& self.wrap_edges_symmetric()
        &&& self.tile_at(14, 23) is NotWall
        &&& self.tile_at(15, 15) is House
        &&& self.tile_at(15, 14) is House
        &&& self.tile_at(14, 15) is House
        &&& self.tile_at(14, 14) is House
        &&& forall|k: int|
            0 <= k < self.pellet_coords@.len() ==> 0 < (#[trigger] self.pellet_coords@[k]).0 < 27
        &&& forall|k: int|
            0 <= k < self.pellet_coords@.len() ==> self.tiles@[cidx(
                #[trigger] self.pellet_coords@[k],
            )] is NotWall
    }

    /// Out-of-bounds counts as wall; so do wall and house tiles.
    pub open spec fn spec_is_wall(self, x: int, y: int) -> bool {
        match self.spec_get(x, y) {
            Some(Tile::NotWall(_)) => false,
            _ => true,
        }
    }

    pub open spec fn spec_is_house(self, x: int, y: int) -> bool {
        self.spec_get(x, y) == Some(Tile::House)
    }

    /// `None` outside the grid (coordinates are not wrapped here), otherwise
    /// the tile.
    pub fn get(&self, x: i32, y: i32) -> (r: Option<Tile>)
        requires
            self.wf(),
        ensures
            r == self.spec_get(x as int, y as int),
    {
        if x < 0 || x >= MAP_WIDTH as i32 {
            None
        } else if y < 0 || y >= MAP_HEIGHT as i32 {
            None
        } else {
            Some(self.tiles[(y as usize) * MAP_WIDTH + (x as usize)])
        }
    }

    pub fn is_wall(&self, x: i32, y: i32) -> (r: bool)
        requires
            self.wf(),
        ensures
            r == self.spec_is_wall(x as int, y as int),
    {
        match self.get(x, y) {
            Some(Tile::NotWall(_)) => false,
            _ => true,
        }
    }

    pub fn is_house(&self, x: i32, y: i32) -> (r: bool)
        requires
            self.wf(),
        ensures
            r == self.spec_is_house(x as int, y as int),
    {
        match self.get(x, y) {
            Some(Tile::House) => true,
            _ => false,
        }
    }

    fn set(&mut self, x: u32, y: u32, tile: Tile)
        requires
            old(self).tiles@.len() == 868,
            in_bounds(x as int, y as int),
        ensures
            final(self).tiles@ == old(self).tiles@.update(y as int * 28 + x as int, tile),
            final(self).pellet_count == old(self).pellet_count,
            final(self).pellet_coords == old(self).pellet_coords,
    {
        let i = (y as usize) * MAP_WIDTH + (x as usize);
        self.tiles[i] = tile;
    }

    /// If the tile holds a pellet, the count drops by one; an open tile's
    /// collectible is cleared either way. Walls and house tiles carry no
    /// collectible and are left unchanged.
    pub fn consume(&mut self, x: i32, y: i32)
        requires
            old(self).wf(),
            in_bounds(x as int, y as int),
        ensures
            final(self).wf(),
            final(self).tiles@ == (if old(self).tile_at(x as int, y as int) is NotWall {
                old(self).tiles@.update(y as int * 28 + x as int, Tile::NotWall(PU::Empty))
            } else {
                old(self).tiles@
            }),
            final(self).pellet_coords == old(self).pellet_coords,
            final(self).pellet_count as int == old(self).pellet_count as int - (if is_dot(
                old(self).tile_at(x as int, y as int),
            ) {
                1int
            } else {
                0int
            }),
            forall|i: int|
                0 <= i < 868 ==> ((#[trigger] final(self).tiles@[i]) is NotWall
                    <==> old(self).tiles@[i] is NotWall),
            old(self).playfield_wf() ==> final(self).playfield_wf(),
    {
        match self.get(x, y) {
            Some(Tile::NotWall(pu)) => {
                proof {
                    lemma_dots_update(
                        self.tiles@,
                        y as int * 28 + x as int,
                        Tile::NotWall(PU::Empty),
                    );
                }
                if pu == PU::Dot {
                    self.pellet_count = self.pellet_count - 1;
                }
                self.set(x as u32, y as u32, Tile::NotWall(PU::Empty));
            },
            _ => {},
        }
        proof {
            assert forall|j: int| 0 <= j < 868 && is_dot(self.tiles@[j]) implies exists|k: int|
                0 <= k < self.pellet_coords@.len() && cidx(#[trigger] self.pellet_coords@[k])
                    == j by {
                assert(is_dot(old(self).tiles@[j]));
            }
            assert forall|j: int| 0 <= j < 868 implies ((#[trigger] self.tiles@[j]) is NotWall
                <==> old(self).tiles@[j] is NotWall) by {}
            if old(self).playfield_wf() {
                assert forall|yy: int| 0 <= yy < 31 implies ((#[trigger] self.tile_at(0, yy))
                    is NotWall <==> self.tile_at(27, yy) is NotWall) by {
                    assert(old(self).tile_at(0, yy) is NotWall <==> old(self).tile_at(
                        27,
                        yy,
                    ) is NotWall);
                    assert(self.tiles@[yy * 28 + 0] is NotWall <==> old(self).tiles@[yy * 28
                        + 0] is NotWall);
                    assert(self.tiles@[yy * 28 + 27] is NotWall <==> old(self).tiles@[yy * 28
                        + 27] is NotWall);
                }
                assert(old(self).tile_at(14, 23) is NotWall);
                assert(self.tile_at(14, 23) is NotWall);
            }
        }
    }

    /// The remaining pellet count; zero signals level completion.
    pub fn pellets(&self) -> (r: u32)
        ensures
            r == self.pellet_count,
    {
        self.pellet_count
    }
}

/// Restoring the recorded pellets keeps the playfield shape: the touched
/// cells are open pellet cells, which lie neither on a wrap edge nor in the
/// house region nor on a wall.
proof fn lemma_reset_playfield(m0: GameMap, m1: GameMap)
    requires
        m0.playfield_wf(),
        m0.tiles@.len() == 868,
        m1.tiles@.len() == 868,
        m1.pellet_coords == m0.pellet_coords,
        forall|k: int|
            0 <= k < m0.pellet_coords@.len() ==> is_dot(
                m1.tiles@[cidx(#[trigger] m0.pellet_coords@[k])],
            ),
        forall|i: int|
            0 <= i < 868 && (forall|k: int|
                0 <= k < m0.pellet_coords@.len() ==> cidx(#[trigger] m0.pellet_coords@[k]) != i)
                ==> m1.tiles@[i] == m0.tiles@[i],
    ensures
        m1.playfield_wf(),
{
    let cs = m0.pellet_coords@;
    // cells outside the recorded coordinates are untouched
    assert forall|i: int|
        0 <= i < 868 && m0.tiles@[i] !is NotWall implies #[trigger] m1.tiles@[i]
        == m0.tiles@[i] by {
        assert forall|k: int| 0 <= k < cs.len() implies cidx(#[trigger] cs[k]) != i by {
            assert(m0.tiles@[cidx(cs[k])] is NotWall);
        }
    }
    // touched cells become pellets, hence stay open either way
    assert forall|i: int|
        0 <= i < 868 && m0.tiles@[i] is NotWall implies #[trigger] m1.tiles@[i] is NotWall by {
        if forall|k: int| 0 <= k < cs.len() ==> cidx(#[trigger] cs[k]) != i {
            assert(m1.tiles@[i] == m0.tiles@[i]);
        } else {
            let k = choose|k: int| !(0 <= k < cs.len() ==> cidx(#[trigger] cs[k]) != i);
            assert(is_dot(m1.tiles@[cidx(cs[k])]));
        }
    }
    assert forall|yy: int| 0 <= yy < 31 implies ((#[trigger] m1.tile_at(0, yy)) is NotWall <==> m1.tile_at(
        27,
        yy,
    ) is NotWall) by {
        assert(m0.tile_at(0, yy) is NotWall <==> m0.tile_at(27, yy) is NotWall);
        assert(m1.tiles@[yy * 28 + 0] is NotWall <==> m0.tiles@[yy * 28 + 0] is NotWall);
        assert(m1.tiles@[yy * 28 + 27] is NotWall <==> m0.tiles@[yy * 28 + 27] is NotWall);
    }
    assert(m1.tile_at(14, 23) is NotWall);
    assert(m1.tiles@[15int * 28 + 15] == m0.tiles@[15int * 28 + 15]);
    assert(m1.tiles@[14int * 28 + 15] == m0.tiles@[14int * 28 + 15]);
    assert(m1.tiles@[15int * 28 + 14] == m0.tiles@[15int * 28 + 14]);
    assert(m1.tiles@[14int * 28 + 14] == m0.tiles@[14int * 28 + 14]);
}

impl GameMap {
    /// Restores every recorded original-pellet coordinate to a pellet tile
    /// and recomputes the count, which then equals the number of recorded
    /// coordinates.
    #[verifier::rlimit(30)]
    pub fn reset(&mut self)
        requires
            old(self).wf(),
        ensures
            final(self).wf(),
            final(self).pellet_coords == old(self).pellet_coords,
            final(self).tiles@.len() == 868,
            forall|k: int|
                0 <= k < old(self).pellet_coords@.len() ==> is_dot(
                    final(self).tiles@[cidx(#[trigger] old(self).pellet_coords@[k])],
                ),
            forall|i: int|
                0 <= i < 868 && (forall|k: int|
                    0 <= k < old(self).pellet_coords@.len() ==> cidx(
                        #[trigger] old(self).pellet_coords@[k],
                    ) != i) ==> final(self).tiles@[i] == old(self).tiles@[i],
            final(self).pellet_count == old(self).pellet_coords@.len(),
            forall|i: int|
                0 <= i < 868 && old(self).tiles@[i] is NotWall ==> (#[trigger] final(self).tiles@[i]) is NotWall,
            old(self).playfield_wf() ==> final(self).playfield_wf(),
    {
        let ghost orig: Seq<Tile> = self.tiles@;
        let ghost cs: Seq<(usize, usize)> = self.pellet_coords@;
        let n = self.pellet_coords.len();
        let mut k: usize = 0;
        while k < n
            invariant
                n == cs.len(),
                0 <= k <= n,
                self.pellet_coords == old(self).pellet_coords,
                self.pellet_coords@ == cs,
                orig.len() == 868,
                self.tiles@.len() == 868,
                forall|k2: int|
                    0 <= k2 < cs.len() ==> 0 <= cidx(#[trigger] cs[k2]) < 868 && cs[k2].0 < 28,
                forall|k1: int, k2: int|
                    0 <= k1 < k2 < cs.len() ==> cidx(#[trigger] cs[k1]) < cidx(#[trigger] cs[k2]),
                forall|i: int|
                    0 <= i < 868 && is_dot(orig[i]) ==> exists|k2: int|
                        0 <= k2 < cs.len() && cidx(#[trigger] cs[k2]) == i,
                forall|j: int| 0 <= j < k ==> is_dot(self.tiles@[cidx(#[trigger] cs[j])]),
                forall|i: int|
                    0 <= i < 868 && (forall|j: int| 0 <= j < k ==> cidx(#[trigger] cs[j]) != i)
                        ==> self.tiles@[i] == orig[i],
            decreases n - k,
        {
            let c = self.pellet_coords[k];
            let x = c.0;
            let y = c.1;
            proof {
                assert(cidx(cs[k as int]) == y * 28 + x);
            }
            self.tiles[y * 28 + x] = Tile::NotWall(PU::Dot);
            k = k + 1;
        }
        // Every pellet tile is now exactly at a recorded coordinate.
        proof {
            assert forall|i: int| 0 <= i < 868 implies (is_dot(self.tiles@[i]) <==> exists|j: int|
                0 <= j < cs.len() && cidx(#[trigger] cs[j]) == i) by {
                if is_dot(self.tiles@[i]) {
                    if forall|j: int| 0 <= j < cs.len() ==> cidx(#[trigger] cs[j]) != i {
                        assert(self.tiles@[i] == orig[i]);
                    }
                }
            }
        }
        let ghost filled: Seq<Tile> = self.tiles@;
        let mut cnt: u32 = 0;
        let mut i: usize = 0;
        proof {
            assert(self.tiles@.take(0) =~= Seq::<Tile>::empty());
        }
        while i < MAP_WIDTH * MAP_HEIGHT
            invariant
                0 <= i <= 868,
                self.tiles@ == filled,
                self.pellet_coords == old(self).pellet_coords,
                self.pellet_coords@ == cs,
                orig.len() == 868,
                filled.len() == 868,
                cnt == dots(filled.take(i as int)),
                cnt <= i,
                forall|k2: int|
                    0 <= k2 < cs.len() ==> 0 <= cidx(#[trigger] cs[k2]) < 868 && cs[k2].0 < 28,
                forall|k1: int, k2: int|
                    0 <= k1 < k2 < cs.len() ==> cidx(#[trigger] cs[k1]) < cidx(#[trigger] cs[k2]),
                forall|ii: int|
                    0 <= ii < 868 ==> (is_dot(filled[ii]) <==> exists|j: int|
                        0 <= j < cs.len() && cidx(#[trigger] cs[j]) == ii),
                forall|ii: int|
                    0 <= ii < 868 && (forall|j: int| 0 <= j < cs.len() ==> cidx(#[trigger] cs[j])
                        != ii) ==> filled[ii] == orig[ii],
            decreases 868 - i,
        {
            let t = self.tiles[i];
            proof {
                assert(filled.take(i + 1).drop_last() =~= filled.take(i as int));
                assert(filled.take(i + 1).last() == filled[i as int]);
            }
            if t == Tile::NotWall(PU::Dot) {
                cnt = cnt + 1;
            }
            i = i + 1;
        }
        proof {
            assert(filled.take(868) =~= filled);
        }
        self.pellet_count = cnt;
        proof {
            lemma_dots_exact(self.tiles@, cs);
            assert forall|i2: int| 0 <= i2 < 868 && is_dot(self.tiles@[i2]) implies exists|k2: int|
                0 <= k2 < self.pellet_coords@.len() && cidx(#[trigger] self.pellet_coords@[k2])
                    == i2 by {
                let j = choose|j: int| 0 <= j < cs.len() && cidx(#[trigger] cs[j]) == i2;
                assert(self.pellet_coords@[j] == cs[j]);
            }
            assert forall|k2: int| 0 <= k2 < cs.len() implies is_dot(
                self.tiles@[cidx(#[trigger] cs[k2])],
            ) by {
                let i2 = cidx(cs[k2]);
                assert(exists|j: int| 0 <= j < cs.len() && cidx(#[trigger] cs[j]) == i2);
                assert(is_dot(filled[i2]));
            }
            assert forall|i2: int| 0 <= i2 < 868 && old(self).tiles@[i2] is NotWall implies (
            #[trigger] self.tiles@[i2]) is NotWall by {
                if forall|j: int| 0 <= j < cs.len() ==> cidx(#[trigger] cs[j]) != i2 {
                    assert(self.tiles@[i2] == orig[i2]);
                } else {
                    let j = choose|j: int| 0 <= j < cs.len() && cidx(#[trigger] cs[j]) == i2;
                    assert(is_dot(self.tiles@[i2]));
                }
            }
            if old(self).playfield_wf() {
                lemma_reset_playfield(*old(self), *self);
            }
        }
    }

    /// Clears every pellet tile and the count with it, so that the next tick
    /// observes a completed level.
    pub fn remove_all_pellets(&mut self)
        requires
            old(self).wf(),
        ensures
            final(self).wf(),
            final(self).pellet_count == 0,
            final(self).pellet_coords == old(self).pellet_coords,
            final(self).tiles@.len() == 868,
            forall|i: int|
                0 <= i < 868 ==> final(self).tiles@[i] == (if is_dot(old(self).tiles@[i]) {
                    Tile::NotWall(PU::Empty)
                } else {
                    old(self).tiles@[i]
                }),
            forall|i: int|
                0 <= i < 868 && old(self).tiles@[i] is NotWall ==> (#[trigger] final(self).tiles@[i]) is NotWall,
            old(self).playfield_wf() ==> final(self).playfield_wf(),
    {
        let ghost orig: Seq<Tile> = self.tiles@;
        let mut i: usize = 0;
        while i < MAP_WIDTH * MAP_HEIGHT
            invariant
                0 <= i <= 868,
                orig.len() == 868,
                self.tiles@.len() == 868,
                self.pellet_coords == old(self).pellet_coords,
                self.pellet_count == old(self).pellet_count,
                forall|j: int|
                    0 <= j < 868 ==> self.tiles@[j] == (if j < i && is_dot(orig[j]) {
                        Tile::NotWall(PU::Empty)
                    } else {
                        orig[j]
                    }),
            decreases 868 - i,
        {
            let t = self.tiles[i];
            if t == Tile::NotWall(PU::Dot) {
                self.tiles[i] = Tile::NotWall(PU::Empty);
            }
            i = i + 1;
        }
        self.pellet_count = 0;
        proof {
            lemma_dots_none(self.tiles@);
            assert forall|j: int| 0 <= j < 868 implies ((#[trigger] self.tiles@[j]) is NotWall
                <==> orig[j] is NotWall) by {}
            if old(self).playfield_wf() {
                assert forall|yy: int| 0 <= yy < 31 implies ((#[trigger] self.tile_at(0, yy))
                    is NotWall <==> self.tile_at(27, yy) is NotWall) by {
                    assert(old(self).tile_at(0, yy) is NotWall <==> old(self).tile_at(
                        27,
                        yy,
                    ) is NotWall);
                    assert(self.tiles@[yy * 28 + 0] is NotWall <==> orig[yy * 28 + 0] is NotWall);
                    assert(self.tiles@[yy * 28 + 27] is NotWall <==> orig[yy * 28
                        + 27] is NotWall);
                }
                assert(old(self).tile_at(14, 23) is NotWall);
                assert(self.tile_at(14, 23) is NotWall);
            }
        }
    }

    /// Row-major scan-line iteration over the grid, for rendering.
    pub fn scan_lines(&self) -> (r: ScanLine<'_>)
        ensures
            r.map == self,
            r.line == 0,
    {
        ScanLine { map: self, line: 0 }
    }
}

/// A cursor over the grid's rows, yielding one row of tiles at a time.
pub struct ScanLine<'a> {
    pub map: &'a GameMap,
    pub line: usize,
}

impl<'a> ScanLine<'a> {
    /// The next grid row as a vector of 28 tiles, or `None` past the last
    /// row.
    pub fn next(&mut self) -> (r: Option<Vec<Tile>>)
        requires
            old(self).map.wf(),
        ensures
            final(self).map == old(self).map,
            old(self).line >= 31 ==> r is None && final(self).line == old(self).line,
            old(self).line < 31 ==> final(self).line == old(self).line + 1 && (r matches Some(rw)
                && rw@ == old(self).map.tiles@.subrange(
                old(self).line * 28,
                old(self).line * 28 + 28,
            )),
    {
        if self.line >= MAP_HEIGHT {
            return None;
        }
        let start = self.line * MAP_WIDTH;
        let mut row: Vec<Tile> = Vec::new();
        let mut i: usize = 0;
        while i < MAP_WIDTH
            invariant
                self.map.wf(),
                self.line < 31,
                start == self.line * 28,
                0 <= i <= 28,
                row@ == self.map.tiles@.subrange(start as int, start + i),
            decreases 28 - i,
        {
            row.push(self.map.tiles[start + i]);
            proof {
                assert(row@ =~= self.map.tiles@.subrange(start as int, start + i + 1));
            }
            i = i + 1;
        }
        self.line = self.line + 1;
        Some(row)
    }
}

/// The fixed layout description as row strings, matching `spec_row`.
fn map_rows() -> (r: Vec<&'static str>)
    ensures
        r@.len() == 31,
        forall|y: int| 0 <= y < 31 ==> #[trigger] r@[y]@ == spec_row(y),
{
    let mut v: Vec<&'static str> = Vec::new();
    v.push("############################");
    v.push("#............##............#");
    v.push("#.####.#####.##.#####.####.#");
    v.push("#X####.#####.##.#####.####X#");
    v.push("#.####.#####.##.#####.####.#");
    v.push("#..........................#");
    v.push("#.####.##.########.##.####.#");
    v.push("#.####.##.########.##.####.#");
    v.push("#......##....##....##......#");
    v.push("######.##### ## #####.######");
    v.push("######.##### ## #####.######");
    v.push("######.##          ##.######");
    v.push("######.## ###HH### ##.######");
    v.push("######.## #HHHHHH# ##.######");
    v.push("      .   #HHHHHH#   .      ");
    v.push("######.## #HHHHHH# ##.######");
    v.push("######.## ######## ##.######");
    v.push("######.##          ##.######");
    v.push("######.## ######## ##.######");
    v.push("######.## ######## ##.######");
    v.push("#............##............#");
    v.push("#.####.#####.##.#####.####.#");
    v.push("#.####.#####.##.#####.####.#");
    v.push("#X..##................##..X#");
    v.push("###.##.##.########.##.##.###");
    v.push("###.##.##.########.##.##.###");
    v.push("#......##....##....##......#");
    v.push("#.##########.##.##########.#");
    v.push("#.##########.##.##########.#");
    v.push("#..........................#");
    v.push("############################");
    v
}

/// Appends the tiles of one layout row, keeping the pellet count and the
/// pellet coordinate list in step with the tiles collected so far.
fn parse_row_into(
    row: &str,
    tiles: &mut Vec<Tile>,
    coords: &mut Vec<(usize, usize)>,
    count: &mut u32,
)
    requires
        old(tiles)@.len() + row@.len() < 0x8000_0000,
        *old(count) == dots(old(tiles)@),
        old(coords)@ == dot_coords(old(tiles)@),
    ensures
        final(tiles)@ == old(tiles)@ + parse_row(row@),
        *final(count) == dots(final(tiles)@),
        final(coords)@ == dot_coords(final(tiles)@),
{
    let ghost base: Seq<Tile> = tiles@;
    let ghost rv: Seq<char> = row@;
    proof {
        assert(rv.take(0) =~= Seq::<char>::empty());
        assert(base + parse_row(rv.take(0)) =~= base);
    }
    let n = row.unicode_len();
    let mut j: usize = 0;
    while j < n
        invariant
            rv == row@,
            n == rv.len(),
            0 <= j <= n,
            tiles@ == base + parse_row(rv.take(j as int)),
            *count == dots(tiles@),
            coords@ == dot_coords(tiles@),
            base.len() + rv.len() < 0x8000_0000,
        decreases n - j,
    {
        let c = row.get_char(j);
        let t_opt: Option<Tile> = if c == '#' {
            Some(Tile::Wall)
        } else if c == '.' {
            Some(Tile::NotWall(PU::Dot))
        } else if c == ' ' {
            Some(Tile::NotWall(PU::Empty))
        } else if c == 'X' {
            Some(Tile::NotWall(PU::PowerUp))
        } else if c == 'H' {
            Some(Tile::House)
        } else {
            None
        };
        proof {
            assert(t_opt == tile_of_char(rv[j as int]));
            assert(rv.take(j + 1).drop_last() =~= rv.take(j as int));
            assert(rv.take(j + 1).last() == rv[j as int]);
            lemma_parse_row_len_le(rv.take(j as int));
            lemma_dots_le(tiles@);
        }
        match t_opt {
            Some(t) => {
                let idx = tiles.len();
                let is_pellet = t == Tile::NotWall(PU::Dot);
                if is_pellet {
                    coords.push((idx % 28, idx / 28));
                    *count = *count + 1;
                }
                tiles.push(t);
                proof {
                    assert(tiles@.drop_last() =~= base + parse_row(rv.take(j as int)));
                    assert(tiles@.last() == t);
                    assert(tiles@ =~= (base + parse_row(rv.take(j as int))).push(t));
                    assert(tiles@ == base + parse_row(rv.take(j + 1)));
                }
            },
            None => {
                proof {
                    assert(parse_row(rv.take(j + 1)) == parse_row(rv.take(j as int)));
                }
            },
        }
        j = j + 1;
    }
    proof {
        assert(rv.take(n as int) =~= rv);
    }
}

impl GameMap {
    pub fn new() -> (r: GameMap)
        ensures
            r.wf(),
            r.playfield_wf(),
            r.tiles@ == layout(),
            r.pellet_coords@ == dot_coords(layout()),
            r.pellet_count == dots(layout()),
    {
        GameMap::default()
    }
}

impl Default for GameMap {
    /// Parses the compiled-in layout: one pass collects the tiles, the
    /// pellet count and the original pellet coordinates together.
    fn default() -> (r: GameMap)
        ensures
            r.wf(),
            r.playfield_wf(),
            r.tiles@ == layout(),
            r.pellet_coords@ == dot_coords(layout()),
            r.pellet_count == dots(layout()),
    {
        let rows = map_rows();
        let mut tiles: Vec<Tile> = Vec::new();
        let mut coords: Vec<(usize, usize)> = Vec::new();
        let mut count: u32 = 0;
        proof {
            assert(tiles@ =~= layout_prefix(0));
            assert(dot_coords(tiles@) =~= coords@);
        }
        let mut y: usize = 0;
        while y < MAP_HEIGHT
            invariant
            0 <= y <= 31,
            rows@.len() == 31,
            forall|r: int| 0 <= r < 31 ==> #[trigger] rows@[r]@ == spec_row(r),
            tiles@ == layout_prefix(y as int),
            tiles@.len() == 28 * y,
            count == dots(tiles@),
            coords@ == dot_coords(tiles@),
        decreases 31 - y,
        {
            proof {
                lemma_row_len(y as int);
                lemma_layout_prefix_len(y as int);
            }
            let row = rows[y];
            parse_row_into(row, &mut tiles, &mut coords, &mut count);
            proof {
                lemma_layout_prefix_len(y as int + 1);
            }
            y = y + 1;
        }
        proof {
            lemma_dot_coords_exact(tiles@);
            assert forall|i: int| 0 <= i < 868 && is_dot(tiles@[i]) implies exists|k: int|
                0 <= k < coords@.len() && cidx(#[trigger] coords@[k]) == i by {
                let k = choose|k: int|
                    0 <= k < dot_coords(tiles@).len() && cidx(#[trigger] dot_coords(tiles@)[k])
                        == i;
                assert(coords@[k] == dot_coords(tiles@)[k]);
            }
            assert forall|k: int| 0 <= k < coords@.len() implies 0 <= cidx(#[trigger] coords@[k])
                < 868 && coords@[k].0 < 28 by {
                assert(coords@[k] == dot_coords(tiles@)[k]);
            }
            assert forall|k1: int, k2: int| 0 <= k1 < k2 < coords@.len() implies cidx(
                #[trigger] coords@[k1],
            ) < cidx(#[trigger] coords@[k2]) by {
                assert(coords@[k1] == dot_coords(tiles@)[k1]);
                assert(coords@[k2] == dot_coords(tiles@)[k2]);
            }
            assert forall|yy: int| 0 <= yy < 31 implies ((#[trigger] tiles@[yy * 28 + 0])
                is NotWall <==> tiles@[yy * 28 + 27] is NotWall) by {
                lemma_layout_index(yy, 0);
                lemma_layout_index(yy, 27);
                lemma_row_len(yy);
                assert(Some(parse_row(spec_row(yy))[0]) == tile_of_char(spec_row(yy)[0]));
                assert(Some(parse_row(spec_row(yy))[27]) == tile_of_char(spec_row(yy)[27]));
            }
            lemma_layout_index(23, 14);
            lemma_row_len(23);
            reveal_strlit("#X..##................##..X#");
            assert(spec_row(23)[14] == '.');
            assert(Some(parse_row(spec_row(23))[14]) == tile_of_char(spec_row(23)[14]));
            assert(tiles@[23int * 28 + 14] is NotWall);
            reveal_strlit("      .   #HHHHHH#   .      ");
            reveal_strlit("######.## #HHHHHH# ##.######");
            lemma_row_len(14);
            lemma_row_len(15);
            lemma_layout_index(14, 14);
            lemma_layout_index(14, 15);
            lemma_layout_index(15, 14);
            lemma_layout_index(15, 15);
            assert(spec_row(14)[14] == 'H' && spec_row(14)[15] == 'H');
            assert(spec_row(15)[14] == 'H' && spec_row(15)[15] == 'H');
            assert(Some(parse_row(spec_row(14))[14]) == tile_of_char(spec_row(14)[14]));
            assert(Some(parse_row(spec_row(14))[15]) == tile_of_char(spec_row(14)[15]));
            assert(Some(parse_row(spec_row(15))[14]) == tile_of_char(spec_row(15)[14]));
            assert(Some(parse_row(spec_row(15))[15]) == tile_of_char(spec_row(15)[15]));
            assert(tiles@[15int * 28 + 15] is House);
            assert(tiles@[14int * 28 + 15] is House);
            assert(tiles@[15int * 28 + 14] is House);
            assert(tiles@[14int * 28 + 14] is House);
            assert forall|k: int| 0 <= k < coords@.len() implies tiles@[cidx(
                #[trigger] coords@[k],
            )] is NotWall by {
                assert(coords@[k] == dot_coords(tiles@)[k]);
                assert(is_dot(tiles@[cidx(dot_coords(tiles@)[k])]));
            }
            assert forall|k: int| 0 <= k < coords@.len() implies 0 < (#[trigger] coords@[k]).0
                < 27 by {
                let c = coords@[k];
                assert(coords@[k] == dot_coords(tiles@)[k]);
                assert(is_dot(tiles@[cidx(c)]));
                if c.0 == 0 || c.0 == 27 {
                    let yy = c.1 as int;
                    assert(cidx(c) == yy * 28 + c.0);
                    lemma_layout_index(yy, c.0 as int);
                    lemma_row_len(yy);
                    assert(Some(parse_row(spec_row(yy))[c.0 as int]) == tile_of_char(
                        spec_row(yy)[c.0 as int],
                    ));
                }
            }
        }
        let r = GameMap { tiles, pellet_count: count, pellet_coords: coords };
        proof {
            assert(r.tiles@.len() == 868);
            assert(r.pellet_count == dots(r.tiles@));
            assert forall|i: int| 0 <= i < 868 && is_dot(r.tiles@[i]) implies exists|k: int|
                0 <= k < r.pellet_coords@.len() && cidx(#[trigger] r.pellet_coords@[k]) == i by {
                let k = choose|k: int|
                    0 <= k < dot_coords(r.tiles@).len() && cidx(
                        #[trigger] dot_coords(r.tiles@)[k],
                    ) == i;
                assert(r.pellet_coords@[k] == dot_coords(r.tiles@)[k]);
            }
            assert(forall|k: int|
                0 <= k < r.pellet_coords@.len() ==> 0 <= cidx(#[trigger] r.pellet_coords@[k]) < 868
                    && r.pellet_coords@[k].0 < 28);
            assert(forall|k1: int, k2: int|
                0 <= k1 < k2 < r.pellet_coords@.len() ==> cidx(#[trigger] r.pellet_coords@[k1])
                    < cidx(#[trigger] r.pellet_coords@[k2]));
        }
        r
    }
}

} // verus!
