use crate::game::Direction;
use crate::map::{in_bounds, GameMap};
use vstd::prelude::*;

verus! {

/// How many swarm advances a flee phase lasts once triggered.
pub const FRIGHTENED_TIMER: u16 = 30;

/// How many swarm advances a pursuit or retreat phase lasts.
pub const GHOST_MODE_TIMER: u16 = 7 * 4;

/// The swarm's shared behavior mode: pursue the player, retreat to the
/// assigned corners, or flee after a power pellet was eaten.
#[derive(Copy, Clone, PartialEq, Eq, Structural, Debug)]
pub enum GhostMode {
    Chase,
    Scatter,
    Frightened,
}

/// The four fixed adversary roles.
#[derive(Debug, Clone, Copy, PartialEq, Eq, Structural)]
pub enum Name {
    Blinky,
    Pinky,
    Inky,
    Clyde,
}

/// The outcome of resolving spatial overlap between player and adversaries.
#[derive(Debug, Clone, Copy, PartialEq, Eq, Structural)]
pub enum Interaction {
    KillPlayer,
    KillGhost(u8),
}

/// One adversary: its role, current and previous grid position, and the
/// countdown during which it stays confined to the house.
#[derive(Copy, Clone, Debug)]
pub struct Adversary {
    pub name: Name,
    pub pos: (i32, i32),
    pub last_pos: (i32, i32),
    pub house_timer: u16,
}

/// The role-specific spawn tile inside the house.
pub open spec fn spawn_pos(name: Name) -> (i32, i32) {
    match name {
        Name::Blinky => (15, 15),
        Name::Pinky => (15, 14),
        Name::Inky => (14, 15),
        Name::Clyde => (14, 14),
    }
}

/// The role-specific number of advances spent inside the house after spawn.
pub open spec fn spawn_timer(name: Name) -> u16 {
    match name {
        Name::Blinky => 2u16,
        Name::Pinky => 10u16,
        Name::Inky => 20u16,
        Name::Clyde => 30u16,
    }
}

/// The fixed off-grid corner each role retreats to.
pub open spec fn spec_scatter_target(name: Name) -> (int, int) {
    match name {
        Name::Blinky => (25, -2),
        Name::Pinky => (2, -2),
        Name::Inky => (27, 31),
        Name::Clyde => (0, 31),
    }
}

/// Horizontal wraparound of a candidate column.
pub open spec fn wrap_x(x: int) -> int {
    if x < 0 {
        27
    } else if x == 28 {
        0
    } else {
        x
    }
}

/// The four orthogonal neighbor cells of `pos` in the fixed enumeration
/// order +x, -x, +y, -y, with horizontal wraparound applied.
pub open spec fn option_cells(pos: (i32, i32)) -> Seq<(int, int)> {
    seq![
        (wrap_x(pos.0 + 1), pos.1 as int),
        (wrap_x(pos.0 - 1), pos.1 as int),
        (pos.0 as int, pos.1 + 1),
        (pos.0 as int, pos.1 - 1),
    ]
}

/// A candidate cell is admissible for the target rule: it is not the
/// immediately-previous position, and it is a house tile or not a wall.
pub open spec fn cell_ok(m: GameMap, last: (i32, i32), c: (int, int)) -> bool {
    &&& c != (last.0 as int, last.1 as int)
    &&& (m.spec_is_house(c.0, c.1) || !m.spec_is_wall(c.0, c.1))
}

/// A candidate cell is admissible for the flee walk: not the previous
/// position and not a wall.
pub open spec fn flee_ok(m: GameMap, last: (i32, i32), c: (int, int)) -> bool {
    &&& c != (last.0 as int, last.1 as int)
    &&& !m.spec_is_wall(c.0, c.1)
}

/// A candidate cell is admissible for the constrained house walk: not the
/// previous position, and a house tile.
pub open spec fn house_ok(m: GameMap, last: (i32, i32), c: (int, int)) -> bool {
    &&& c != (last.0 as int, last.1 as int)
    &&& m.spec_is_house(c.0, c.1)
}

/// Squared Euclidean distance between two cells.
pub open spec fn dist2(c: (int, int), t: (int, int)) -> int {
    (c.0 - t.0) * (c.0 - t.0) + (c.1 - t.1) * (c.1 - t.1)
}

/// Candidate `i` is the one the target rule picks: admissible, of minimal
/// squared distance to the target, and earliest in the enumeration order
/// among the minima.
pub open spec fn is_choice(
    m: GameMap,
    last: (i32, i32),
    cands: Seq<(int, int)>,
    tgt: (int, int),
    i: int,
) -> bool {
    &&& 0 <= i < cands.len()
    &&& cell_ok(m, last, cands[i])
    &&& forall|j: int|
        0 <= j < cands.len() && cell_ok(m, last, #[trigger] cands[j]) ==> dist2(cands[j], tgt)
            >= dist2(cands[i], tgt)
    &&& forall|j: int|
        0 <= j < i && cell_ok(m, last, #[trigger] cands[j]) ==> dist2(cands[j], tgt) > dist2(
            cands[i],
            tgt,
        )
}

impl Adversary {
    /// Validity: the current position lies on the grid.
    pub open spec fn wf(self) -> bool {
        in_bounds(self.pos.0 as int, self.pos.1 as int)
    }

    /// The role's freshly spawned state: spawn tile, no previous position,
    /// full house countdown.
    pub open spec fn spec_spawn(name: Name) -> Adversary {
        Adversary {
            name,
            pos: spawn_pos(name),
            last_pos: (i32::MIN, i32::MIN),
            house_timer: spawn_timer(name),
        }
    }

    pub fn new(name: Name) -> (r: Adversary)
        ensures
            r == Adversary::spec_spawn(name),
            r.wf(),
    {
        let start_p: (i32, i32) = match name {
            Name::Blinky => (15, 15),
            Name::Pinky => (15, 14),
            Name::Inky => (14, 15),
            Name::Clyde => (14, 14),
        };
        let timer: u16 = match name {
            Name::Blinky => 2,
            Name::Pinky => 10,
            Name::Inky => 20,
            Name::Clyde => 30,
        };
        Adversary { name, pos: start_p, last_pos: (i32::MIN, i32::MIN), house_timer: timer }
    }

    pub fn x(&self) -> (r: i32)
        ensures
            r == self.pos.0,
    {
        self.pos.0
    }

    pub fn y(&self) -> (r: i32)
        ensures
            r == self.pos.1,
    {
        self.pos.1
    }

    fn change_pos(&mut self, to: (i32, i32))
        ensures
            final(self).pos == to,
            final(self).last_pos == old(self).pos,
            final(self).name == old(self).name,
            final(self).house_timer == old(self).house_timer,
    {
        self.last_pos = self.pos;
        self.pos = to;
    }

    fn wrap(x: i32) -> (r: i32)
        requires
            x > i32::MIN,
        ensures
            r as int == wrap_x(x as int),
    {
        if x < 0 {
            27
        } else if x == 28 {
            0
        } else {
            x
        }
    }

    /// The four neighbor cells in the fixed enumeration order, wrapped.
    fn get_options(&self) -> (r: Vec<(i32, i32)>)
        requires
            self.wf(),
        ensures
            r@.len() == 4,
            forall|k: int|
                0 <= k < 4 ==> ((#[trigger] r@[k]).0 as int, r@[k].1 as int) == option_cells(
                    self.pos,
                )[k],
    {
        let mut v: Vec<(i32, i32)> = Vec::new();
        v.push((Adversary::wrap(self.pos.0 + 1), self.pos.1));
        v.push((Adversary::wrap(self.pos.0 - 1), self.pos.1));
        v.push((self.pos.0, self.pos.1 + 1));
        v.push((self.pos.0, self.pos.1 - 1));
        v
    }
}

/// Relies on rand::random (thread-local uniform generation); nothing is
/// promised of the value, and callers must hold for every outcome.
#[verifier::external_body]
fn random_usize() -> usize {
    rand::random::<usize>()
}

/// How a target-rule step relates an adversary's new state to its old one:
/// role and house countdown unchanged; on a house tile the target is
/// overridden by the fixed house exit; if any admissible neighbor exists the
/// adversary steps to the chosen one, recording its old position, else it
/// stays put.
pub open spec fn effective_target(m: GameMap, g0: Adversary, target: (int, int)) -> (int, int) {
    if m.spec_is_house(g0.pos.0 as int, g0.pos.1 as int) {
        (13int, 11int)
    } else {
        target
    }
}

/// Some neighbor cell is admissible for the target rule.
pub open spec fn has_ok_cell(m: GameMap, g0: Adversary) -> bool {
    exists|j: int| 0 <= j < 4 && cell_ok(m, g0.last_pos, #[trigger] option_cells(g0.pos)[j])
}

pub open spec fn move_rel(m: GameMap, g0: Adversary, g1: Adversary, target: (int, int)) -> bool {
    &&& g1.name == g0.name
    &&& g1.house_timer == g0.house_timer
    &&& if has_ok_cell(m, g0) {
        exists|i: int|
            #[trigger] is_choice(
                m,
                g0.last_pos,
                option_cells(g0.pos),
                effective_target(m, g0, target),
                i,
            ) && (g1.pos.0 as int, g1.pos.1 as int) == option_cells(g0.pos)[i] && g1.last_pos
                == g0.pos
    } else {
        g1 == g0
    }
}

/// How a flee step relates the new state to the old: role and countdown
/// unchanged; if any non-wall, non-reversing neighbor exists, the adversary
/// steps to one of them (chosen at random), else it stays put.
/// Some neighbor cell is admissible for the flee walk.
pub open spec fn has_flee_cell(m: GameMap, g0: Adversary) -> bool {
    exists|j: int| 0 <= j < 4 && flee_ok(m, g0.last_pos, #[trigger] option_cells(g0.pos)[j])
}

pub open spec fn flee_rel(m: GameMap, g0: Adversary, g1: Adversary) -> bool {
    &&& g1.name == g0.name
    &&& g1.house_timer == g0.house_timer
    &&& if has_flee_cell(m, g0) {
        exists|j: int|
            0 <= j < 4 && flee_ok(m, g0.last_pos, #[trigger] option_cells(g0.pos)[j]) && (
            g1.pos.0 as int,
            g1.pos.1 as int,
            ) == option_cells(g0.pos)[j] && g1.last_pos == g0.pos
    } else {
        g1 == g0
    }
}

/// How a confined house step relates the new state to the old: role
/// unchanged, countdown decremented (saturating); if any non-reversing house
/// neighbor exists, the adversary steps to one of them (chosen at random),
/// else it keeps its position.
/// Some neighbor cell is admissible for the constrained house walk.
pub open spec fn has_house_cell(m: GameMap, g0: Adversary) -> bool {
    exists|j: int| 0 <= j < 4 && house_ok(m, g0.last_pos, #[trigger] option_cells(g0.pos)[j])
}

pub open spec fn house_rel(m: GameMap, g0: Adversary, g1: Adversary) -> bool {
    &&& g1.name == g0.name
    &&& g1.house_timer == (if g0.house_timer > 0 {
        (g0.house_timer - 1) as u16
    } else {
        0u16
    })
    &&& if has_house_cell(m, g0) {
        exists|j: int|
            0 <= j < 4 && house_ok(m, g0.last_pos, #[trigger] option_cells(g0.pos)[j]) && (
            g1.pos.0 as int,
            g1.pos.1 as int,
            ) == option_cells(g0.pos)[j] && g1.last_pos == g0.pos
    } else {
        g1.pos == g0.pos && g1.last_pos == g0.last_pos
    }
}

impl Adversary {
    /// One pursuit/retreat step: among the four neighbor cells, discard the
    /// previous position and walls (house tiles stay admissible), and move to
    /// the cell with minimal squared distance to the target, ties resolved by
    /// enumeration order; stand still when nothing is admissible.
    pub fn move_to(&mut self, map: &GameMap, target: (i32, i32))
        requires
            map.wf(),
            old(self).wf(),
            -10000 <= target.0 <= 10000,
            -10000 <= target.1 <= 10000,
        ensures
            move_rel(*map, *old(self), *final(self), (target.0 as int, target.1 as int)),
            final(self).wf(),
    {
        let ghost orig_target: (int, int) = (target.0 as int, target.1 as int);
        let target: (i32, i32) = if map.is_house(self.pos.0, self.pos.1) {
            (13, 11)
        } else {
            target
        };
        let ghost tgt: (int, int) = (target.0 as int, target.1 as int);
        let ghost cands: Seq<(int, int)> = option_cells(self.pos);
        let options = self.get_options();
        let mut best: Option<(i32, i32)> = None;
        let mut best_d: i32 = 0;
        let ghost mut bi: int = 0;
        let mut k: usize = 0;
        while k < 4
            invariant
                map.wf(),
                *self == *old(self),
                self.wf(),
                -10000 <= target.0 <= 10000,
                -10000 <= target.1 <= 10000,
                tgt == (target.0 as int, target.1 as int),
                cands == option_cells(self.pos),
                options@.len() == 4,
                forall|j: int|
                    0 <= j < 4 ==> ((#[trigger] options@[j]).0 as int, options@[j].1 as int)
                        == cands[j],
                0 <= k <= 4,
                best is None ==> forall|j: int|
                    0 <= j < k ==> !cell_ok(*map, self.last_pos, #[trigger] cands[j]),
                best matches Some(p) ==> {
                    &&& 0 <= bi < k
                    &&& cell_ok(*map, self.last_pos, cands[bi])
                    &&& (p.0 as int, p.1 as int) == cands[bi]
                    &&& best_d as int == dist2(cands[bi], tgt)
                    &&& forall|j: int|
                        0 <= j < k && cell_ok(*map, self.last_pos, #[trigger] cands[j]) ==> dist2(
                            cands[j],
                            tgt,
                        ) >= best_d as int
                    &&& forall|j: int|
                        0 <= j < bi && cell_ok(*map, self.last_pos, #[trigger] cands[j]) ==> dist2(
                            cands[j],
                            tgt,
                        ) > best_d as int
                },
            decreases 4 - k,
        {
            let c = options[k];
            let not_last = !(c.0 == self.last_pos.0 && c.1 == self.last_pos.1);
            let admissible = map.is_house(c.0, c.1) || !map.is_wall(c.0, c.1);
            if not_last && admissible {
                let dx = c.0 - target.0;
                let dy = c.1 - target.1;
                proof {
                    assert(0 <= (dx as int) * (dx as int) <= 0x1000_0000 && 0 <= (dy as int) * (
                    dy as int) <= 0x1000_0000) by (nonlinear_arith)
                        requires
                            -10050 <= dx as int <= 10050,
                            -10050 <= dy as int <= 10050,
                    ;
                }
                let d = dx * dx + dy * dy;
                let take = match best {
                    None => true,
                    Some(_) => d < best_d,
                };
                if take {
                    best = Some(c);
                    best_d = d;
                    proof {
                        bi = k as int;
                    }
                }
            }
            k = k + 1;
        }
        match best {
            Some(p) => {
                proof {
                    assert(is_choice(*map, self.last_pos, cands, tgt, bi));
                }
                self.change_pos(p);
                proof {
                    assert(cands == option_cells(old(self).pos));
                    assert(tgt == (if map.spec_is_house(
                        old(self).pos.0 as int,
                        old(self).pos.1 as int,
                    ) {
                        (13int, 11int)
                    } else {
                        orig_target
                    }));
                    assert(effective_target(*map, *old(self), orig_target) == tgt);
                    assert(is_choice(
                        *map,
                        old(self).last_pos,
                        option_cells(old(self).pos),
                        effective_target(*map, *old(self), orig_target),
                        bi,
                    ));
                    assert((self.pos.0 as int, self.pos.1 as int) == option_cells(
                        old(self).pos,
                    )[bi]);
                    assert(self.last_pos == old(self).pos);
                    assert(has_ok_cell(*map, *old(self)));
                    assert(move_rel(*map, *old(self), *self, orig_target));
                }
            },
            None => {},
        }
    }

}

impl Adversary {
    /// One flee step: a uniform draw among the neighbor cells that are not
    /// the previous position and not walls (drawing from the shrinking
    /// candidate list until a non-wall comes up is the same uniform choice
    /// over the admissible cells); stand still when none is admissible.
    pub fn flee(&mut self, map: &GameMap)
        requires
            map.wf(),
            old(self).wf(),
        ensures
            flee_rel(*map, *old(self), *final(self)),
            final(self).wf(),
    {
        let ghost cands: Seq<(int, int)> = option_cells(old(self).pos);
        let o = self.get_options();
        proof {
            assert(((o@[0]).0 as int, (o@[0]).1 as int) == cands[0]);
            assert(((o@[1]).0 as int, (o@[1]).1 as int) == cands[1]);
            assert(((o@[2]).0 as int, (o@[2]).1 as int) == cands[2]);
            assert(((o@[3]).0 as int, (o@[3]).1 as int) == cands[3]);
        }
        let mut opts: Vec<(i32, i32)> = Vec::new();
        let c0 = o[0];
        if !(c0.0 == self.last_pos.0 && c0.1 == self.last_pos.1) && !map.is_wall(c0.0, c0.1) {
            opts.push(c0);
        }
        let c1 = o[1];
        if !(c1.0 == self.last_pos.0 && c1.1 == self.last_pos.1) && !map.is_wall(c1.0, c1.1) {
            opts.push(c1);
        }
        let c2 = o[2];
        if !(c2.0 == self.last_pos.0 && c2.1 == self.last_pos.1) && !map.is_wall(c2.0, c2.1) {
            opts.push(c2);
        }
        let c3 = o[3];
        if !(c3.0 == self.last_pos.0 && c3.1 == self.last_pos.1) && !map.is_wall(c3.0, c3.1) {
            opts.push(c3);
        }
        if opts.len() == 0 {
            proof {
                if has_flee_cell(*map, *old(self)) {
                    let j0 = choose|j: int|
                        0 <= j < 4 && flee_ok(
                            *map,
                            old(self).last_pos,
                            #[trigger] option_cells(old(self).pos)[j],
                        );
                    assert(false);
                }
            }
            return ;
        }
        let i = random_usize() % opts.len();
        let c = opts[i];
        proof {
            assert(exists|j: int|
                0 <= j < 4 && flee_ok(
                    *map,
                    old(self).last_pos,
                    #[trigger] option_cells(old(self).pos)[j],
                ) && (c.0 as int, c.1 as int) == option_cells(old(self).pos)[j]);
        }
        self.change_pos(c);
        proof {
            assert(exists|j: int|
                0 <= j < 4 && flee_ok(
                    *map,
                    old(self).last_pos,
                    #[trigger] option_cells(old(self).pos)[j],
                ) && (self.pos.0 as int, self.pos.1 as int) == option_cells(old(self).pos)[j]
                    && self.last_pos == old(self).pos);
            assert(flee_rel(*map, *old(self), *self));
        }
    }

    /// One confined house step: a uniform draw among the neighbor cells that
    /// are not the previous position and are house tiles, then the release
    /// countdown is decremented.
    pub fn house_move(&mut self, map: &GameMap)
        requires
            map.wf(),
            old(self).wf(),
        ensures
            house_rel(*map, *old(self), *final(self)),
            final(self).wf(),
    {
        let ghost cands: Seq<(int, int)> = option_cells(old(self).pos);
        let o = self.get_options();
        proof {
            assert(((o@[0]).0 as int, (o@[0]).1 as int) == cands[0]);
            assert(((o@[1]).0 as int, (o@[1]).1 as int) == cands[1]);
            assert(((o@[2]).0 as int, (o@[2]).1 as int) == cands[2]);
            assert(((o@[3]).0 as int, (o@[3]).1 as int) == cands[3]);
        }
        let mut opts: Vec<(i32, i32)> = Vec::new();
        let c0 = o[0];
        if !(c0.0 == self.last_pos.0 && c0.1 == self.last_pos.1) && map.is_house(c0.0, c0.1) {
            opts.push(c0);
        }
        let c1 = o[1];
        if !(c1.0 == self.last_pos.0 && c1.1 == self.last_pos.1) && map.is_house(c1.0, c1.1) {
            opts.push(c1);
        }
        let c2 = o[2];
        if !(c2.0 == self.last_pos.0 && c2.1 == self.last_pos.1) && map.is_house(c2.0, c2.1) {
            opts.push(c2);
        }
        let c3 = o[3];
        if !(c3.0 == self.last_pos.0 && c3.1 == self.last_pos.1) && map.is_house(c3.0, c3.1) {
            opts.push(c3);
        }
        if opts.len() > 0 {
            let i = random_usize() % opts.len();
            let c = opts[i];
            proof {
                assert(exists|j: int|
                    0 <= j < 4 && house_ok(
                        *map,
                        old(self).last_pos,
                        #[trigger] option_cells(old(self).pos)[j],
                    ) && (c.0 as int, c.1 as int) == option_cells(old(self).pos)[j]);
            }
            self.change_pos(c);
        } else {
            proof {
                if has_house_cell(*map, *old(self)) {
                    let j0 = choose|j: int|
                        0 <= j < 4 && house_ok(
                            *map,
                            old(self).last_pos,
                            #[trigger] option_cells(old(self).pos)[j],
                        );
                    assert(false);
                }
            }
        }
        self.house_timer = self.house_timer.saturating_sub(1);
        proof {
            assert(house_rel(*map, *old(self), *self));
        }
    }
}

/// The target rule is deterministic: at most one candidate index satisfies
/// `is_choice`.
pub proof fn lemma_choice_unique(
    m: GameMap,
    last: (i32, i32),
    cands: Seq<(int, int)>,
    tgt: (int, int),
    i1: int,
    i2: int,
)
    requires
        is_choice(m, last, cands, tgt, i1),
        is_choice(m, last, cands, tgt, i2),
    ensures
        i1 == i2,
{
    if i1 < i2 {
        assert(dist2(cands[i1], tgt) > dist2(cands[i2], tgt));
        assert(dist2(cands[i2], tgt) >= dist2(cands[i1], tgt));
    }
    if i2 < i1 {
        assert(dist2(cands[i2], tgt) > dist2(cands[i1], tgt));
        assert(dist2(cands[i1], tgt) >= dist2(cands[i2], tgt));
    }
}

/// Tie-break determinism: of two admissible candidates at identical squared
/// distance to the target, the one later in the fixed enumeration order is
/// never the chosen one.
pub proof fn lemma_tie_break(
    m: GameMap,
    last: (i32, i32),
    cands: Seq<(int, int)>,
    tgt: (int, int),
    i: int,
    j: int,
    k: int,
)
    requires
        0 <= i < j < cands.len(),
        cell_ok(m, last, cands[i]),
        cell_ok(m, last, cands[j]),
        dist2(cands[i], tgt) == dist2(cands[j], tgt),
        is_choice(m, last, cands, tgt, k),
    ensures
        k != j,
{
    if k == j {
        assert(dist2(cands[i], tgt) > dist2(cands[j], tgt));
    }
}

/// No-reverse: whenever a target-rule or flee step actually moved the
/// adversary, the new position differs from the previously occupied cell.
pub proof fn lemma_no_reverse(m: GameMap, g0: Adversary, g1: Adversary, target: (int, int))
    requires
        move_rel(m, g0, g1, target) || flee_rel(m, g0, g1),
        g1 != g0,
    ensures
        !(g1.pos.0 == g0.last_pos.0 && g1.pos.1 == g0.last_pos.1),
{
}

/// The target four tiles ahead of the player along its facing.
pub open spec fn spec_pinky_target(px: int, py: int, d: Direction) -> (int, int) {
    (px + 4 * d.spec_vector().0, py + 4 * d.spec_vector().1)
}

/// The point two tiles ahead of the player, reflected through the first
/// adversary's position and scaled by two from it.
pub open spec fn spec_inky_target(bx: int, by: int, px: int, py: int, d: Direction) -> (int, int) {
    (bx + 2 * ((px + 2 * d.spec_vector().0) - bx), by + 2 * ((py + 2 * d.spec_vector().1) - by))
}

/// The player's position only while the Euclidean distance to it exceeds 8
/// tiles (squared distance over 64); at 8 tiles or closer the home corner,
/// forcing disengagement.
pub open spec fn spec_clyde_target(cx: int, cy: int, px: int, py: int) -> (int, int) {
    if (cx - px) * (cx - px) + (cy - py) * (cy - py) <= 64 {
        spec_scatter_target(Name::Clyde)
    } else {
        (px, py)
    }
}

pub fn calc_pinky_target(player: (i32, i32, Direction)) -> (r: (i32, i32))
    requires
        in_bounds(player.0 as int, player.1 as int),
    ensures
        (r.0 as int, r.1 as int) == spec_pinky_target(player.0 as int, player.1 as int, player.2),
{
    let v = player.2.to_vector();
    (player.0 + v.0 * 4, player.1 + v.1 * 4)
}

pub fn calc_inky_target(blinky: (i32, i32), player: (i32, i32, Direction)) -> (r: (i32, i32))
    requires
        in_bounds(blinky.0 as int, blinky.1 as int),
        in_bounds(player.0 as int, player.1 as int),
    ensures
        (r.0 as int, r.1 as int) == spec_inky_target(
            blinky.0 as int,
            blinky.1 as int,
            player.0 as int,
            player.1 as int,
            player.2,
        ),
{
    let v = player.2.to_vector();
    let mid_x = player.0 + v.0 * 2;
    let mid_y = player.1 + v.1 * 2;
    (blinky.0 + (mid_x - blinky.0) * 2, blinky.1 + (mid_y - blinky.1) * 2)
}

pub fn calc_clyde_target(clyde: (i32, i32), plr: (i32, i32)) -> (r: (i32, i32))
    requires
        in_bounds(clyde.0 as int, clyde.1 as int),
        in_bounds(plr.0 as int, plr.1 as int),
    ensures
        (r.0 as int, r.1 as int) == spec_clyde_target(
            clyde.0 as int,
            clyde.1 as int,
            plr.0 as int,
            plr.1 as int,
        ),
{
    let dx = clyde.0 - plr.0;
    let dy = clyde.1 - plr.1;
    proof {
        assert(0 <= (dx as int) * (dx as int) <= 1000 && 0 <= (dy as int) * (dy as int)
            <= 1000) by (nonlinear_arith)
            requires
                -31 <= dx as int <= 31,
                -31 <= dy as int <= 31,
        ;
    }
    if dx * dx + dy * dy <= 64 {
        (0, 31)
    } else {
        plr
    }
}

fn scatter_corner(name: Name) -> (r: (i32, i32))
    ensures
        (r.0 as int, r.1 as int) == spec_scatter_target(name),
{
    match name {
        Name::Blinky => (25, -2),
        Name::Pinky => (2, -2),
        Name::Inky => (27, 31),
        Name::Clyde => (0, 31),
    }
}

/// The pursuit target of adversary `g`, a function of the player's position
/// and facing and, for two roles, of another position.
pub open spec fn chase_target(
    blinky_pos: (i32, i32),
    player: (i32, i32, Direction),
    g: Adversary,
) -> (int, int) {
    match g.name {
        Name::Blinky => (player.0 as int, player.1 as int),
        Name::Pinky => spec_pinky_target(player.0 as int, player.1 as int, player.2),
        Name::Inky => spec_inky_target(
            blinky_pos.0 as int,
            blinky_pos.1 as int,
            player.0 as int,
            player.1 as int,
            player.2,
        ),
        Name::Clyde => spec_clyde_target(
            g.pos.0 as int,
            g.pos.1 as int,
            player.0 as int,
            player.1 as int,
        ),
    }
}

/// One advance of the shared mode machine, applied after the four adversaries
/// have moved: the flee countdown runs out back into pursuit; otherwise the
/// phase timer drives the pursuit/retreat alternation, reloading itself and
/// consuming one retreat use on each flip into retreat.
pub open spec fn mode_step(mode: GhostMode, mode_timer: u16, frightened_timer: u16, num_scatters: u8) -> (
    GhostMode,
    u16,
    u16,
    u8,
) {
    if mode == GhostMode::Frightened {
        if frightened_timer <= 1 {
            (GhostMode::Chase, mode_timer, 0u16, num_scatters)
        } else {
            (GhostMode::Frightened, mode_timer, (frightened_timer - 1) as u16, num_scatters)
        }
    } else {
        if mode_timer <= 1 {
            if mode == GhostMode::Chase && num_scatters > 0 {
                (GhostMode::Scatter, GHOST_MODE_TIMER, frightened_timer, (num_scatters - 1) as u8)
            } else {
                (GhostMode::Chase, GHOST_MODE_TIMER, frightened_timer, num_scatters)
            }
        } else {
            (mode, (mode_timer - 1) as u16, frightened_timer, num_scatters)
        }
    }
}

/// How one swarm advance relates adversary `i`'s new state to its old one:
/// confined adversaries make a house step; otherwise the shared mode selects
/// the flee walk, the role's pursuit target, or the role's retreat corner.
pub open spec fn swarm_move_rel(
    m: GameMap,
    s0: Ghosts,
    player: (i32, i32, Direction),
    g1: Adversary,
    i: int,
) -> bool {
    if s0.ghosts@[i].house_timer != 0 {
        house_rel(m, s0.ghosts@[i], g1)
    } else if s0.ghost_mode == GhostMode::Frightened {
        flee_rel(m, s0.ghosts@[i], g1)
    } else if s0.ghost_mode == GhostMode::Chase {
        move_rel(m, s0.ghosts@[i], g1, chase_target(s0.ghosts@[0].pos, player, s0.ghosts@[i]))
    } else {
        move_rel(m, s0.ghosts@[i], g1, spec_scatter_target(s0.ghosts@[i].name))
    }
}

/// Whether this adversary's current or previous position overlaps `plr`.
pub open spec fn hits(g: Adversary, plr: (i32, i32)) -> bool {
    g.pos == plr || g.last_pos == plr
}

/// How many of the first `n` adversaries overlap `plr`.
pub open spec fn hit_count(gs: Seq<Adversary>, plr: (i32, i32), n: int) -> nat
    decreases n,
{
    if n <= 0 {
        0
    } else {
        hit_count(gs, plr, n - 1) + if hits(gs[n - 1], plr) {
            1nat
        } else {
            0nat
        }
    }
}

/// House confinement: an adversary standing on a house tile that makes a
/// confined house step is still on a house tile afterwards.
pub proof fn lemma_house_confinement(m: GameMap, g0: Adversary, g1: Adversary)
    requires
        house_rel(m, g0, g1),
        m.spec_is_house(g0.pos.0 as int, g0.pos.1 as int),
    ensures
        m.spec_is_house(g1.pos.0 as int, g1.pos.1 as int),
{
    if has_house_cell(m, g0) {
        let j = choose|j: int|
            0 <= j < 4 && house_ok(m, g0.last_pos, #[trigger] option_cells(g0.pos)[j]) && (
            g1.pos.0 as int,
            g1.pos.1 as int,
            ) == option_cells(g0.pos)[j] && g1.last_pos == g0.pos;
        assert(m.spec_is_house(option_cells(g0.pos)[j].0, option_cells(g0.pos)[j].1));
    }
}

/// No more adversaries overlap than are counted over.
pub proof fn lemma_hit_count_le(gs: Seq<Adversary>, plr: (i32, i32), n: int)
    requires
        n >= 0,
    ensures
        hit_count(gs, plr, n) <= n,
    decreases n,
{
    if n > 0 {
        lemma_hit_count_le(gs, plr, n - 1);
    }
}

/// The swarm: the four adversaries, the shared mode, the phase and flee
/// countdowns, and how many retreat phases remain schedulable this level.
pub struct Ghosts {
    pub ghosts: Vec<Adversary>,
    pub ghost_mode: GhostMode,
    pub mode_timer: u16,
    pub frightened_timer: u16,
    pub num_scatters: u8,
}

/// The freshly constructed swarm: all four roles at spawn, pursuing, with
/// the phase timer about to reload and two retreat phases schedulable.
pub open spec fn is_initial(s: Ghosts) -> bool {
    &&& s.ghosts@.len() == 4
    &&& s.ghosts@[0] == Adversary::spec_spawn(Name::Blinky)
    &&& s.ghosts@[1] == Adversary::spec_spawn(Name::Pinky)
    &&& s.ghosts@[2] == Adversary::spec_spawn(Name::Inky)
    &&& s.ghosts@[3] == Adversary::spec_spawn(Name::Clyde)
    &&& s.ghost_mode == GhostMode::Chase
    &&& s.mode_timer == 0
    &&& s.frightened_timer == 0
    &&& s.num_scatters == 2
}

impl Ghosts {
    /// Validity: exactly four adversaries in fixed role order, each on the
    /// grid, and the swarm is in flee mode exactly while the flee countdown
    /// is positive.
    pub open spec fn wf(self) -> bool {
        &&& self.ghosts@.len() == 4
        &&& forall|i: int| 0 <= i < 4 ==> (#[trigger] self.ghosts@[i]).wf()
        &&& self.ghosts@[0].name == Name::Blinky
        &&& self.ghosts@[1].name == Name::Pinky
        &&& self.ghosts@[2].name == Name::Inky
        &&& self.ghosts@[3].name == Name::Clyde
        &&& (self.ghost_mode == GhostMode::Frightened <==> self.frightened_timer > 0)
    }

    pub fn new() -> (r: Ghosts)
        ensures
            r.wf(),
            is_initial(r),
    {
        let mut gs: Vec<Adversary> = Vec::new();
        gs.push(Adversary::new(Name::Blinky));
        gs.push(Adversary::new(Name::Pinky));
        gs.push(Adversary::new(Name::Inky));
        gs.push(Adversary::new(Name::Clyde));
        Ghosts {
            ghosts: gs,
            ghost_mode: GhostMode::Chase,
            mode_timer: 0,
            frightened_timer: 0,
            num_scatters: 2,
        }
    }

    pub fn get(&self) -> (r: &Vec<Adversary>)
        ensures
            r == &self.ghosts,
    {
        &self.ghosts
    }

    pub fn ghost_mode(&self) -> (r: GhostMode)
        ensures
            r == self.ghost_mode,
    {
        self.ghost_mode
    }

    /// Flee is always re-triggerable and always wins: whatever the current
    /// mode, the swarm switches to flee and the flee countdown reloads.
    pub fn frighten(&mut self)
        ensures
            final(self).ghost_mode == GhostMode::Frightened,
            final(self).frightened_timer == FRIGHTENED_TIMER,
            final(self).ghosts == old(self).ghosts,
            final(self).mode_timer == old(self).mode_timer,
            final(self).num_scatters == old(self).num_scatters,
            old(self).wf() ==> final(self).wf(),
    {
        self.ghost_mode = GhostMode::Frightened;
        self.frightened_timer = FRIGHTENED_TIMER;
    }

    /// Restores the whole swarm to its freshly constructed state.
    pub fn reset(&mut self)
        ensures
            final(self).wf(),
            is_initial(*final(self)),
    {
        *self = Ghosts::new();
    }

    /// One swarm advance: each adversary moves (house walk, flee walk, or
    /// target rule with its role's pursuit target or retreat corner), then
    /// the shared mode machine advances one step.
    pub fn move_ghosts(&mut self, map: &GameMap, player: (i32, i32, Direction))
        requires
            map.wf(),
            old(self).wf(),
            in_bounds(player.0 as int, player.1 as int),
        ensures
            final(self).wf(),
            final(self).ghosts@.len() == 4,
            forall|i: int|
                0 <= i < 4 ==> swarm_move_rel(
                    *map,
                    *old(self),
                    player,
                    #[trigger] final(self).ghosts@[i],
                    i,
                ),
            ({
                let st = mode_step(
                    old(self).ghost_mode,
                    old(self).mode_timer,
                    old(self).frightened_timer,
                    old(self).num_scatters,
                );
                &&& final(self).ghost_mode == st.0
                &&& final(self).mode_timer == st.1
                &&& final(self).frightened_timer == st.2
                &&& final(self).num_scatters == st.3
            }),
    {
        let blinky = self.ghosts[0].pos;
        let mut i: usize = 0;
        while i < 4
            invariant
                map.wf(),
                old(self).wf(),
                in_bounds(player.0 as int, player.1 as int),
                blinky == old(self).ghosts@[0].pos,
                self.ghost_mode == old(self).ghost_mode,
                self.mode_timer == old(self).mode_timer,
                self.frightened_timer == old(self).frightened_timer,
                self.num_scatters == old(self).num_scatters,
                self.ghosts@.len() == 4,
                0 <= i <= 4,
                forall|j: int|
                    0 <= j < i ==> swarm_move_rel(
                        *map,
                        *old(self),
                        player,
                        #[trigger] self.ghosts@[j],
                        j,
                    ),
                forall|j: int| 0 <= j < i ==> (#[trigger] self.ghosts@[j]).wf(),
                forall|j: int| i <= j < 4 ==> self.ghosts@[j] == old(self).ghosts@[j],
            decreases 4 - i,
        {
            let mut g = self.ghosts[i];
            if g.house_timer != 0 {
                g.house_move(map);
            } else if self.ghost_mode == GhostMode::Frightened {
                g.flee(map);
            } else if self.ghost_mode == GhostMode::Chase {
                let target: (i32, i32) = match g.name {
                    Name::Blinky => (player.0, player.1),
                    Name::Pinky => calc_pinky_target(player),
                    Name::Inky => calc_inky_target(blinky, player),
                    Name::Clyde => calc_clyde_target(g.pos, (player.0, player.1)),
                };
                proof {
                    assert((target.0 as int, target.1 as int) == chase_target(
                        old(self).ghosts@[0].pos,
                        player,
                        old(self).ghosts@[i as int],
                    ));
                }
                g.move_to(map, target);
            } else {
                let target = scatter_corner(g.name);
                g.move_to(map, target);
            }
            self.ghosts[i] = g;
            proof {
                assert(swarm_move_rel(*map, *old(self), player, self.ghosts@[i as int], i as int));
            }
            i = i + 1;
        }
        if self.ghost_mode == GhostMode::Frightened {
            self.frightened_timer = self.frightened_timer.saturating_sub(1);
            if self.frightened_timer == 0 {
                self.ghost_mode = GhostMode::Chase;
            }
        } else {
            self.mode_timer = self.mode_timer.saturating_sub(1);
            if self.mode_timer == 0 {
                self.mode_timer = GHOST_MODE_TIMER;
                if self.ghost_mode == GhostMode::Chase && self.num_scatters > 0 {
                    self.num_scatters = self.num_scatters - 1;
                    self.ghost_mode = GhostMode::Scatter;
                } else {
                    self.ghost_mode = GhostMode::Chase;
                }
            }
        }
    }

    /// Resolves spatial overlap with the player: while fleeing, every
    /// overlapped adversary is reset to its spawn state and their number is
    /// reported; otherwise any overlap kills the player. Previous positions
    /// count too, so that paths crossed within one advance are caught.
    pub fn interact_with_player(&mut self, plr: (i32, i32)) -> (r: Option<Interaction>)
        requires
            old(self).wf(),
        ensures
            final(self).wf(),
            final(self).ghost_mode == old(self).ghost_mode,
            final(self).mode_timer == old(self).mode_timer,
            final(self).frightened_timer == old(self).frightened_timer,
            final(self).num_scatters == old(self).num_scatters,
            final(self).ghosts@.len() == 4,
            old(self).ghost_mode == GhostMode::Frightened ==> {
                &&& forall|i: int|
                    0 <= i < 4 ==> #[trigger] final(self).ghosts@[i] == (if hits(
                        old(self).ghosts@[i],
                        plr,
                    ) {
                        Adversary::spec_spawn(old(self).ghosts@[i].name)
                    } else {
                        old(self).ghosts@[i]
                    })
                &&& r == (if hit_count(old(self).ghosts@, plr, 4) == 0 {
                    None::<Interaction>
                } else {
                    Some(Interaction::KillGhost(hit_count(old(self).ghosts@, plr, 4) as u8))
                })
            },
            old(self).ghost_mode != GhostMode::Frightened ==> {
                &&& final(self).ghosts == old(self).ghosts
                &&& r == (if exists|i: int| 0 <= i < 4 && hits(#[trigger] old(self).ghosts@[i], plr) {
                    Some(Interaction::KillPlayer)
                } else {
                    None::<Interaction>
                })
            },
    {
        let frightened = self.ghost_mode == GhostMode::Frightened;
        if frightened {
            let mut killed: u8 = 0;
            let mut i: usize = 0;
            while i < 4
                invariant
                    old(self).wf(),
                    self.ghosts@.len() == 4,
                    self.ghost_mode == old(self).ghost_mode,
                    self.mode_timer == old(self).mode_timer,
                    self.frightened_timer == old(self).frightened_timer,
                    self.num_scatters == old(self).num_scatters,
                    0 <= i <= 4,
                    killed == hit_count(old(self).ghosts@, plr, i as int),
                    killed <= i,
                    forall|j: int|
                        0 <= j < i ==> #[trigger] self.ghosts@[j] == (if hits(
                            old(self).ghosts@[j],
                            plr,
                        ) {
                            Adversary::spec_spawn(old(self).ghosts@[j].name)
                        } else {
                            old(self).ghosts@[j]
                        }),
                    forall|j: int| i <= j < 4 ==> self.ghosts@[j] == old(self).ghosts@[j],
                decreases 4 - i,
            {
                let g = self.ghosts[i];
                if (g.pos.0 == plr.0 && g.pos.1 == plr.1) || (g.last_pos.0 == plr.0 && g.last_pos.1
                    == plr.1) {
                    self.ghosts[i] = Adversary::new(g.name);
                    killed = killed + 1;
                }
                i = i + 1;
            }
            if killed == 0 {
                None
            } else {
                Some(Interaction::KillGhost(killed))
            }
        } else {
            let mut any = false;
            let mut i: usize = 0;
            while i < 4
                invariant
                    old(self).wf(),
                    *self == *old(self),
                    0 <= i <= 4,
                    any == exists|j: int| 0 <= j < i && hits(#[trigger] old(self).ghosts@[j], plr),
                decreases 4 - i,
            {
                let g = self.ghosts[i];
                if (g.pos.0 == plr.0 && g.pos.1 == plr.1) || (g.last_pos.0 == plr.0 && g.last_pos.1
                    == plr.1) {
                    proof {
                        assert(hits(old(self).ghosts@[i as int], plr));
                    }
                    any = true;
                }
                i = i + 1;
            }
            if any {
                Some(Interaction::KillPlayer)
            } else {
                None
            }
        }
    }

    /// The per-role target each adversary currently computes, for
    /// visualization only; fleeing adversaries have no target and report a
    /// fixed off-screen point.
    pub fn targets(&self, plr: (i32, i32, Direction)) -> (r: Vec<(i32, i32)>)
        requires
            self.wf(),
            in_bounds(plr.0 as int, plr.1 as int),
        ensures
            r@.len() == 4,
            self.ghost_mode == GhostMode::Chase ==> forall|i: int|
                0 <= i < 4 ==> ((#[trigger] r@[i]).0 as int, r@[i].1 as int) == chase_target(
                    self.ghosts@[0].pos,
                    plr,
                    self.ghosts@[i],
                ),
            self.ghost_mode == GhostMode::Scatter ==> forall|i: int|
                0 <= i < 4 ==> ((#[trigger] r@[i]).0 as int, r@[i].1 as int) == spec_scatter_target(
                    self.ghosts@[i].name,
                ),
            self.ghost_mode == GhostMode::Frightened ==> forall|i: int|
                0 <= i < 4 ==> (#[trigger] r@[i]) == (300i32, 300i32),
    {
        let mut v: Vec<(i32, i32)> = Vec::new();
        match self.ghost_mode {
            GhostMode::Chase => {
                v.push((plr.0, plr.1));
                v.push(calc_pinky_target(plr));
                v.push(calc_inky_target(self.ghosts[0].pos, plr));
                v.push(calc_clyde_target(self.ghosts[3].pos, (plr.0, plr.1)));
            },
            GhostMode::Scatter => {
                v.push(scatter_corner(Name::Blinky));
                v.push(scatter_corner(Name::Pinky));
                v.push(scatter_corner(Name::Inky));
                v.push(scatter_corner(Name::Clyde));
            },
            GhostMode::Frightened => {
                v.push((300, 300));
                v.push((300, 300));
                v.push((300, 300));
                v.push((300, 300));
            },
        }
        v
    }
}

/// The mode machine iterated `n` times.
pub open spec fn mode_after(mode: GhostMode, mt: u16, ft: u16, ns: u8, n: nat) -> (
    GhostMode,
    u16,
    u16,
    u8,
)
    decreases n,
{
    if n == 0 {
        (mode, mt, ft, ns)
    } else {
        let s = mode_after(mode, mt, ft, ns, (n - 1) as nat);
        mode_step(s.0, s.1, s.2, s.3)
    }
}

/// While the pursuit phase timer runs, the mode stays pursuit and the timer
/// counts down one per advance.
proof fn lemma_pursuit_countdown(mt: u16, ns: u8, k: nat)
    requires
        k < mt,
    ensures
        mode_after(GhostMode::Chase, mt, 0, ns, k) == (
            GhostMode::Chase,
            (mt - k) as u16,
            0u16,
            ns,
        ),
    decreases k,
{
    if k > 0 {
        lemma_pursuit_countdown(mt, ns, (k - 1) as nat);
    }
}

/// Mode transition on schedule: starting a pursuit phase with timer `mt` and
/// a retreat still schedulable, the mode is still pursuit strictly before
/// `mt` advances have passed, and after exactly `mt` advances (absent any
/// flee trigger) it is retreat, with one retreat use consumed and the phase
/// timer reloaded.
pub proof fn lemma_mode_schedule(mt: u16, ns: u8, k: nat)
    requires
        mt > 0,
        ns > 0,
        k < mt,
    ensures
        mode_after(GhostMode::Chase, mt, 0, ns, k).0 == GhostMode::Chase,
        mode_after(GhostMode::Chase, mt, 0, ns, mt as nat) == (
            GhostMode::Scatter,
            GHOST_MODE_TIMER,
            0u16,
            (ns - 1) as u8,
        ),
{
    lemma_pursuit_countdown(mt, ns, k);
    lemma_pursuit_countdown(mt, ns, (mt - 1) as nat);
}

/// Once the retreat cap is exhausted, no number of advances ever re-enters
/// retreat: the mode machine moves between pursuit and flee only.
pub proof fn lemma_no_scatter_after_cap(mode: GhostMode, mt: u16, ft: u16, n: nat)
    requires
        mode != GhostMode::Scatter,
    ensures
        mode_after(mode, mt, ft, 0, n).0 != GhostMode::Scatter,
        mode_after(mode, mt, ft, 0, n).3 == 0,
    decreases n,
{
    if n > 0 {
        lemma_no_scatter_after_cap(mode, mt, ft, (n - 1) as nat);
    }
}

/// Retreat is capped: a single advance flips into retreat only while uses
/// remain, each flip consumes exactly one use, and the count never grows.
pub proof fn lemma_scatter_cap(mode: GhostMode, mt: u16, ft: u16, ns: u8)
    ensures
        ({
            let s = mode_step(mode, mt, ft, ns);
            &&& (s.0 == GhostMode::Scatter && mode != GhostMode::Scatter) ==> (ns > 0 && s.3 == ns
                - 1)
            &&& s.3 <= ns
        }),
{
}

} // verus!
