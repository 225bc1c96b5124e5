use crate::ghost::{
    hit_count, hits, is_initial, mode_step, swarm_move_rel, Adversary, GhostMode, Ghosts,
    Interaction, FRIGHTENED_TIMER,
};
use crate::map::{cidx, in_bounds, is_dot, GameMap, Tile, PU};
use vstd::prelude::*;

verus! {

/// A 4-way orientation value with a pure conversion to a unit displacement
/// vector; x grows rightward, y grows downward.
#[derive(Copy, Clone, Debug, PartialEq, Eq, Structural)]
pub enum Direction {
    Up,
    Down,
    Left,
    Right,
}

impl Direction {
    /// The unit displacement vector of this direction.
    pub open spec fn spec_vector(self) -> (int, int) {
        match self {
            Direction::Up => (0, -1),
            Direction::Down => (0, 1),
            Direction::Left => (-1, 0),
            Direction::Right => (1, 0),
        }
    }

    pub fn to_vector(self) -> (r: (i32, i32))
        ensures
            (r.0 as int, r.1 as int) == self.spec_vector(),
    {
        match self {
            Direction::Up => (0, -1),
            Direction::Down => (0, 1),
            Direction::Left => (-1, 0),
            Direction::Right => (1, 0),
        }
    }
}

pub const START_X: i32 = 14;

pub const START_Y: i32 = 23;

pub const SCORE_PELLET: u32 = 10;

pub const SCORE_PU: u32 = 50;

pub const SCORE_GHOST: u32 = 200;

pub const START_LIVES: u8 = 5;

/// A stats snapshot for the rendering side.
pub struct Stats {
    pub lives: u8,
    pub score: u32,
    pub level: usize,
}

/// The whole game state: the map, the player (position, committed direction,
/// buffered intent, score, lives), the adversary swarm, and the level and
/// tick counters.
pub struct Pacman {
    pub map: GameMap,
    pub lives: u8,
    pub score: u32,
    pub level: usize,
    pub x: i32,
    pub y: i32,
    pub direction: Direction,
    pub direction_intent: Direction,
    pub ghosts: Ghosts,
    pub ticks: u32,
}

/// `a + b` clamped to the `u32` range.
pub open spec fn sat_add_u32(a: u32, b: u32) -> u32 {
    if a + b <= u32::MAX {
        (a + b) as u32
    } else {
        u32::MAX
    }
}

/// `a + 1` clamped to the `usize` range.
pub open spec fn sat_inc_usize(a: usize) -> usize {
    if a < usize::MAX {
        (a + 1) as usize
    } else {
        a
    }
}

/// The cell one step from `(x, y)` along `d`.
pub open spec fn next_cell(x: int, y: int, d: Direction) -> (int, int) {
    (x + d.spec_vector().0, y + d.spec_vector().1)
}

impl Pacman {
    /// Validity: map and swarm are valid, the map keeps the reference
    /// layout's playfield shape, the player stands on an open tile of the
    /// grid — never on a wall — and every adversary whose release countdown
    /// is still running is confined to a house tile.
    pub open spec fn wf(self) -> bool {
        &&& self.map.wf()
        &&& self.map.playfield_wf()
        &&& self.ghosts.wf()
        &&& in_bounds(self.x as int, self.y as int)
        &&& self.map.tile_at(self.x as int, self.y as int) is NotWall
        &&& forall|i: int|
            0 <= i < 4 && (#[trigger] self.ghosts.ghosts@[i]).house_timer > 0
                ==> self.map.spec_is_house(
                self.ghosts.ghosts@[i].pos.0 as int,
                self.ghosts.ghosts@[i].pos.1 as int,
            )
    }

    /// The buffered intent may turn if its cell is in bounds and not a wall
    /// (house tiles do not block turning, though movement into them does).
    pub open spec fn spec_can_turn(self) -> bool {
        match self.map.spec_get(
            next_cell(self.x as int, self.y as int, self.direction_intent).0,
            next_cell(self.x as int, self.y as int, self.direction_intent).1,
        ) {
            None => false,
            Some(Tile::Wall) => false,
            _ => true,
        }
    }

    /// The committed direction after re-testing the buffered intent.
    pub open spec fn committed_direction(self) -> Direction {
        if self.spec_can_turn() {
            self.direction_intent
        } else {
            self.direction
        }
    }

    /// The cell one step along the committed direction.
    pub open spec fn candidate_cell(self) -> (int, int) {
        next_cell(self.x as int, self.y as int, self.committed_direction())
    }
}

/// Where the player lands when the candidate cell lies outside the grid:
/// the two designated wrap columns teleport to the opposite edge, anything
/// else stands still.
pub open spec fn wrap_landing(s0: Pacman) -> int {
    if s0.candidate_cell().0 == -1 {
        27
    } else if s0.candidate_cell().0 == 28 {
        0
    } else {
        s0.x as int
    }
}

/// The map after the player consumed the candidate cell's collectible.
pub open spec fn map_consumed(s0: Pacman, s1: Pacman) -> bool {
    &&& s1.map.tiles@ == s0.map.tiles@.update(
        s0.candidate_cell().1 * 28 + s0.candidate_cell().0,
        Tile::NotWall(PU::Empty),
    )
    &&& s1.map.pellet_coords == s0.map.pellet_coords
    &&& s1.map.pellet_count as int == s0.map.pellet_count as int - (if is_dot(
        s0.map.tile_at(s0.candidate_cell().0, s0.candidate_cell().1),
    ) {
        1int
    } else {
        0int
    })
}

/// The swarm after an unconditional flee trigger.
pub open spec fn frightened_of(g0: Ghosts, g1: Ghosts) -> bool {
    g1 == (Ghosts {
        ghost_mode: GhostMode::Frightened,
        frightened_timer: FRIGHTENED_TIMER,
        ..g0
    })
}

/// How one player movement step relates positions, score, map and swarm:
/// wrap at the designated columns, stand still at walls and house tiles,
/// move into open tiles, consuming a pellet (score 10) or a power pellet
/// (score 50, swarm frightened).
pub open spec fn player_move_rel(s0: Pacman, s1: Pacman) -> bool {
    match s0.map.spec_get(s0.candidate_cell().0, s0.candidate_cell().1) {
        None => {
            &&& s1.y == s0.y
            &&& s1.x as int == wrap_landing(s0)
            &&& s1.map == s0.map
            &&& s1.score == s0.score
            &&& s1.ghosts == s0.ghosts
        },
        Some(Tile::NotWall(pu)) => {
            &&& s1.x as int == s0.candidate_cell().0
            &&& s1.y as int == s0.candidate_cell().1
            &&& (match pu {
                PU::Empty => s1.map == s0.map && s1.score == s0.score && s1.ghosts == s0.ghosts,
                PU::Dot => map_consumed(s0, s1) && s1.score == sat_add_u32(s0.score, SCORE_PELLET)
                    && s1.ghosts == s0.ghosts,
                PU::PowerUp => map_consumed(s0, s1) && s1.score == sat_add_u32(s0.score, SCORE_PU)
                    && frightened_of(s0.ghosts, s1.ghosts),
            })
        },
        _ => {
            &&& s1.x == s0.x
            &&& s1.y == s0.y
            &&& s1.map == s0.map
            &&& s1.score == s0.score
            &&& s1.ghosts == s0.ghosts
        },
    }
}

/// The full effect of the player stage of a tick: movement as in
/// `player_move_rel`, the committed direction updated from the intent, and
/// everything else untouched.
pub open spec fn player_stage(s0: Pacman, s1: Pacman) -> bool {
    &&& s1.wf()
    &&& s1.lives == s0.lives
    &&& s1.level == s0.level
    &&& s1.ticks == s0.ticks
    &&& s1.direction_intent == s0.direction_intent
    &&& s1.direction == s0.committed_direction()
    &&& player_move_rel(s0, s1)
}

/// The effect of the swarm stage of a tick on the swarm alone: each
/// adversary relates to its old state by `swarm_move_rel` and the mode
/// machine advances one step.
pub open spec fn swarm_stage(mid: Pacman, gm: Ghosts) -> bool {
    &&& gm.wf()
    &&& gm.ghosts@.len() == 4
    &&& forall|i: int|
        0 <= i < 4 ==> swarm_move_rel(
            mid.map,
            mid.ghosts,
            (mid.x, mid.y, mid.direction),
            #[trigger] gm.ghosts@[i],
            i,
        )
    &&& gm.ghost_mode == mode_step(
        mid.ghosts.ghost_mode,
        mid.ghosts.mode_timer,
        mid.ghosts.frightened_timer,
        mid.ghosts.num_scatters,
    ).0
    &&& gm.mode_timer == mode_step(
        mid.ghosts.ghost_mode,
        mid.ghosts.mode_timer,
        mid.ghosts.frightened_timer,
        mid.ghosts.num_scatters,
    ).1
    &&& gm.frightened_timer == mode_step(
        mid.ghosts.ghost_mode,
        mid.ghosts.mode_timer,
        mid.ghosts.frightened_timer,
        mid.ghosts.num_scatters,
    ).2
    &&& gm.num_scatters == mode_step(
        mid.ghosts.ghost_mode,
        mid.ghosts.mode_timer,
        mid.ghosts.frightened_timer,
        mid.ghosts.num_scatters,
    ).3
}

/// The effect of resolving player-adversary overlap at the end of a tick,
/// between the mid-tick state `mid`, the moved swarm `gm`, and the final
/// state `s1`: while fleeing, overlapped adversaries respawn and score 200
/// each; otherwise an overlap sends the player back to spawn and costs a
/// life.
pub open spec fn outcome_stage(mid: Pacman, gm: Ghosts, s1: Pacman) -> bool {
    &&& s1.map == mid.map
    &&& s1.level == mid.level
    &&& s1.direction == mid.direction
    &&& s1.direction_intent == mid.direction_intent
    &&& s1.ticks == mid.ticks
    &&& s1.ghosts.ghost_mode == gm.ghost_mode
    &&& s1.ghosts.mode_timer == gm.mode_timer
    &&& s1.ghosts.frightened_timer == gm.frightened_timer
    &&& s1.ghosts.num_scatters == gm.num_scatters
    &&& s1.ghosts.ghosts@.len() == 4
    &&& if gm.ghost_mode == GhostMode::Frightened {
        &&& (forall|i: int|
            0 <= i < 4 ==> #[trigger] s1.ghosts.ghosts@[i] == (if hits(gm.ghosts@[i], (mid.x, mid.y)) {
                Adversary::spec_spawn(gm.ghosts@[i].name)
            } else {
                gm.ghosts@[i]
            }))
        &&& s1.x == mid.x
        &&& s1.y == mid.y
        &&& s1.lives == mid.lives
        &&& s1.score == (if hit_count(gm.ghosts@, (mid.x, mid.y), 4) == 0 {
            mid.score
        } else {
            sat_add_u32(mid.score, (SCORE_GHOST * hit_count(gm.ghosts@, (mid.x, mid.y), 4)) as u32)
        })
    } else {
        &&& s1.ghosts.ghosts == gm.ghosts
        &&& if exists|i: int| 0 <= i < 4 && hits(#[trigger] gm.ghosts@[i], (mid.x, mid.y)) {
            &&& s1.x == START_X
            &&& s1.y == START_Y
            &&& s1.lives == (mid.lives - 1) as u8
            &&& s1.score == mid.score
        } else {
            &&& s1.x == mid.x
            &&& s1.y == mid.y
            &&& s1.lives == mid.lives
            &&& s1.score == mid.score
        }
    }
}

/// The map after a level-advance reset: every recorded pellet coordinate
/// holds a pellet again, everything else is untouched, and the count equals
/// the number of recorded coordinates.
pub open spec fn map_reset_rel(m0: GameMap, m1: GameMap) -> bool {
    &&& m1.wf()
    &&& m1.pellet_coords == m0.pellet_coords
    &&& m1.tiles@.len() == 868
    &&& forall|k: int|
        0 <= k < m0.pellet_coords@.len() ==> is_dot(
            m1.tiles@[cidx(#[trigger] m0.pellet_coords@[k])],
        )
    &&& forall|i: int|
        0 <= i < 868 && (forall|k: int|
            0 <= k < m0.pellet_coords@.len() ==> cidx(#[trigger] m0.pellet_coords@[k]) != i)
            ==> m1.tiles@[i] == m0.tiles@[i]
    &&& m1.pellet_count == m0.pellet_coords@.len()
}

impl Pacman {
    pub fn new() -> (r: Pacman)
        ensures
            r.wf(),
            r.map.wf(),
            r.map.tiles@ == crate::map::layout(),
            r.map.pellet_coords@ == crate::map::dot_coords(crate::map::layout()),
            r.map.pellet_count == crate::map::dots(crate::map::layout()),
            r.lives == START_LIVES,
            r.score == 0,
            r.level == 1,
            r.x == START_X,
            r.y == START_Y,
            r.direction == Direction::Left,
            r.direction_intent == Direction::Left,
            is_initial(r.ghosts),
            r.ticks == 0,
    {
        Pacman::default()
    }

    /// Records the intent; if the tile in that direction is passable the
    /// intent commits immediately. A game without lives left is frozen.
    pub fn set_direction_intent(&mut self, direction: Direction)
        requires
            old(self).wf(),
        ensures
            final(self).wf(),
            old(self).lives == 0 ==> *final(self) == *old(self),
            old(self).lives > 0 ==> *final(self) == (Pacman {
                direction_intent: direction,
                direction: (Pacman { direction_intent: direction, ..*old(self) }).committed_direction(),
                ..*old(self)
            }),
    {
        if self.lives == 0 {
            return ;
        }
        self.direction_intent = direction;
        if self.can_turn() {
            self.direction = self.direction_intent;
        }
    }

    pub fn can_turn(&self) -> (r: bool)
        requires
            self.map.wf(),
            in_bounds(self.x as int, self.y as int),
        ensures
            r == self.spec_can_turn(),
    {
        let v = self.direction_intent.to_vector();
        match self.map.get(self.x + v.0, self.y + v.1) {
            None => false,
            Some(Tile::Wall) => false,
            _ => true,
        }
    }

    /// One player movement step: commit the intent if now unblocked, then
    /// resolve the candidate cell (wrap, wall, or move-and-consume).
    pub fn move_pacman(&mut self)
        requires
            old(self).wf(),
        ensures
            final(self).wf(),
            player_stage(*old(self), *final(self)),
    {
        if self.can_turn() {
            self.direction = self.direction_intent;
        }
        let v = self.direction.to_vector();
        let x = self.x + v.0;
        let y = self.y + v.1;
        match self.map.get(x, y) {
            None => {
                if x == -1 {
                    self.x = 27;
                } else if x == 28 {
                    self.x = 0;
                }
            },
            Some(Tile::NotWall(pu)) => {
                self.x = x;
                self.y = y;
                match pu {
                    PU::Empty => {},
                    PU::Dot => {
                        self.map.consume(x, y);
                        self.score = self.score.saturating_add(SCORE_PELLET);
                    },
                    PU::PowerUp => {
                        self.map.consume(x, y);
                        self.ghosts.frighten();
                        self.score = self.score.saturating_add(SCORE_PU);
                    },
                }
            },
            _ => {},
        }
    }

    /// One swarm advance against the current map and player.
    pub fn move_ghosts(&mut self)
        requires
            old(self).wf(),
        ensures
            final(self).wf(),
            *final(self) == (Pacman { ghosts: final(self).ghosts, ..*old(self) }),
            swarm_stage(*old(self), final(self).ghosts),
    {
        self.ghosts.move_ghosts(&self.map, (self.x, self.y, self.direction));
    }

    /// Level advance: the player returns to spawn facing left, the swarm is
    /// reconstructed, the map's pellets are restored; score and lives
    /// persist.
    pub fn advance_level(&mut self)
        requires
            old(self).wf(),
        ensures
            final(self).wf(),
            final(self).level == sat_inc_usize(old(self).level),
            final(self).x == START_X,
            final(self).y == START_Y,
            final(self).direction == Direction::Left,
            final(self).direction_intent == Direction::Left,
            is_initial(final(self).ghosts),
            map_reset_rel(old(self).map, final(self).map),
            final(self).score == old(self).score,
            final(self).lives == old(self).lives,
            final(self).ticks == old(self).ticks,
    {
        self.level = if self.level < usize::MAX {
            self.level + 1
        } else {
            self.level
        };
        self.x = START_X;
        self.y = START_Y;
        self.direction = Direction::Left;
        self.direction_intent = Direction::Left;
        self.ghosts.reset();
        self.map.reset();
    }

    /// One simulation tick: count the tick; a cleared map advances the
    /// level; a game without lives is frozen; otherwise the player moves,
    /// the swarm moves, and overlap is resolved.
    pub fn tick(&mut self)
        requires
            old(self).wf(),
        ensures
            final(self).wf(),
            final(self).ticks == sat_add_u32(old(self).ticks, 1),
            old(self).map.pellet_count == 0 ==> {
                &&& final(self).level == sat_inc_usize(old(self).level)
                &&& final(self).x == START_X
                &&& final(self).y == START_Y
                &&& final(self).direction == Direction::Left
                &&& final(self).direction_intent == Direction::Left
                &&& is_initial(final(self).ghosts)
                &&& map_reset_rel(old(self).map, final(self).map)
                &&& final(self).score == old(self).score
                &&& final(self).lives == old(self).lives
            },
            old(self).map.pellet_count > 0 && old(self).lives == 0 ==> *final(self) == (Pacman {
                ticks: sat_add_u32(old(self).ticks, 1),
                ..*old(self)
            }),
            old(self).map.pellet_count > 0 && old(self).lives > 0 ==> (exists|
                mid: Pacman,
                gm: Ghosts,
            |
                #![trigger swarm_stage(mid, gm)]
                player_stage(
                    Pacman { ticks: sat_add_u32(old(self).ticks, 1), ..*old(self) },
                    mid,
                ) && swarm_stage(mid, gm) && outcome_stage(mid, gm, *final(self))),
    {
        self.ticks = self.ticks.saturating_add(1);
        if self.map.pellets() == 0 {
            self.advance_level();
            return ;
        }
        if self.lives == 0 {
            return ;
        }
        let ghost pre: Pacman = *self;
        self.move_pacman();
        let ghost mid: Pacman = *self;
        self.move_ghosts();
        let ghost gm: Ghosts = self.ghosts;
        proof {
            assert(player_stage(pre, mid));
            assert(swarm_stage(mid, gm));
            crate::ghost::lemma_hit_count_le(gm.ghosts@, (mid.x, mid.y), 4);
        }
        match self.ghosts.interact_with_player((self.x, self.y)) {
            Some(Interaction::KillPlayer) => {
                self.x = START_X;
                self.y = START_Y;
                self.lives = self.lives - 1;
            },
            Some(Interaction::KillGhost(n)) => {
                self.score = self.score.saturating_add(SCORE_GHOST * (n as u32));
            },
            None => {},
        }
        proof {
            assert(outcome_stage(mid, gm, *self));
        }
    }

    pub fn map(&self) -> (r: &GameMap)
        ensures
            r == &self.map,
    {
        &self.map
    }

    /// The player's position and most recently requested facing.
    pub fn player(&self) -> (r: (i32, i32, Direction))
        ensures
            r == (self.x, self.y, self.direction_intent),
    {
        (self.x, self.y, self.direction_intent)
    }

    pub fn ghosts(&self) -> (r: &Vec<Adversary>)
        ensures
            r == &self.ghosts.ghosts,
    {
        self.ghosts.get()
    }

    pub fn ghost_mode(&self) -> (r: GhostMode)
        ensures
            r == self.ghosts.ghost_mode,
    {
        self.ghosts.ghost_mode()
    }

    pub fn stats(&self) -> (r: Stats)
        ensures
            r.lives == self.lives,
            r.score == self.score,
            r.level == self.level,
    {
        Stats { lives: self.lives, score: self.score, level: self.level }
    }

    /// The adversaries' current targets, for visualization only; the
    /// simulation state is untouched.
    pub fn ghost_targets(&self) -> (r: Vec<(i32, i32)>)
        requires
            self.wf(),
        ensures
            r@.len() == 4,
            self.ghosts.ghost_mode == GhostMode::Chase ==> forall|i: int|
                0 <= i < 4 ==> ((#[trigger] r@[i]).0 as int, r@[i].1 as int)
                    == crate::ghost::chase_target(
                    self.ghosts.ghosts@[0].pos,
                    (self.x, self.y, self.direction),
                    self.ghosts.ghosts@[i],
                ),
            self.ghosts.ghost_mode == GhostMode::Scatter ==> forall|i: int|
                0 <= i < 4 ==> ((#[trigger] r@[i]).0 as int, r@[i].1 as int)
                    == crate::ghost::spec_scatter_target(self.ghosts.ghosts@[i].name),
            self.ghosts.ghost_mode == GhostMode::Frightened ==> forall|i: int|
                0 <= i < 4 ==> (#[trigger] r@[i]) == (300i32, 300i32),
    {
        self.ghosts.targets((self.x, self.y, self.direction))
    }

    /// Clears every remaining pellet, tile and count alike, so that the
    /// next tick advances the level; nothing else changes.
    pub fn level_up(&mut self)
        requires
            old(self).wf(),
        ensures
            final(self).wf(),
            final(self).map.pellet_count == 0,
            final(self).map.pellet_coords == old(self).map.pellet_coords,
            final(self).map.tiles@.len() == 868,
            forall|i: int|
                0 <= i < 868 ==> final(self).map.tiles@[i] == (if is_dot(old(self).map.tiles@[i]) {
                    Tile::NotWall(PU::Empty)
                } else {
                    old(self).map.tiles@[i]
                }),
            *final(self) == (Pacman { map: final(self).map, ..*old(self) }),
    {
        self.map.remove_all_pellets();
    }
}

impl Default for Pacman {
    fn default() -> (r: Pacman)
        ensures
            r.wf(),
            r.map.wf(),
            r.map.tiles@ == crate::map::layout(),
            r.map.pellet_coords@ == crate::map::dot_coords(crate::map::layout()),
            r.map.pellet_count == crate::map::dots(crate::map::layout()),
            r.lives == START_LIVES,
            r.score == 0,
            r.level == 1,
            r.x == START_X,
            r.y == START_Y,
            r.direction == Direction::Left,
            r.direction_intent == Direction::Left,
            is_initial(r.ghosts),
            r.ticks == 0,
    {
        Pacman {
            map: GameMap::new(),
            lives: START_LIVES,
            score: 0,
            level: 1,
            x: START_X,
            y: START_Y,
            direction: Direction::Left,
            direction_intent: Direction::Left,
            ghosts: Ghosts::new(),
            ticks: 0,
        }
    }
}

/// On a map whose wrap edges mirror each other, a player standing on an
/// open tile still stands on an open tile after the move stage: walls block,
/// house tiles block, open cells are entered, and a wrap lands on the
/// opposite edge, which is open by symmetry.
pub proof fn lemma_player_stays_on_open(s0: Pacman, s1: Pacman)
    requires
        s0.wf(),
        player_stage(s0, s1),
        s0.map.tile_at(s0.x as int, s0.y as int) is NotWall,
        s0.map.wrap_edges_symmetric(),
    ensures
        s1.map.tile_at(s1.x as int, s1.y as int) is NotWall,
{
    let c = s0.candidate_cell();
    match s0.map.spec_get(c.0, c.1) {
        None => {
            if c.0 == -1 {
                assert(s0.x == 0);
                assert(s0.map.tile_at(0, s0.y as int) is NotWall);
                assert(s1.map.tile_at(27, s0.y as int) is NotWall);
            } else if c.0 == 28 {
                assert(s0.x == 27);
                assert(s1.map.tile_at(0, s0.y as int) is NotWall);
            }
        },
        Some(Tile::NotWall(pu)) => {
            assert(in_bounds(c.0, c.1));
        },
        _ => {},
    }
}

/// Wraparound: a player at column 0 moving left lands at column 27 on the
/// same row, and one at column 27 moving right lands at column 0, with the
/// committed direction preserved by the move stage.
pub proof fn lemma_wraparound(s0: Pacman, s1: Pacman)
    requires
        s0.wf(),
        player_stage(s0, s1),
    ensures
        s0.committed_direction() == Direction::Left && s0.x == 0 ==> s1.x == 27 && s1.y == s0.y
            && s1.direction == Direction::Left,
        s0.committed_direction() == Direction::Right && s0.x == 27 ==> s1.x == 0 && s1.y == s0.y
            && s1.direction == Direction::Right,
{
}

} // verus!
