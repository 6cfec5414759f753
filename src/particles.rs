use vstd::prelude::*;
use vstd::string::StringExecFns;
use crate::apps::{App, RunConfig};
use crate::graphics::{Graphics, PanelItem, SidePanel, append_decimal, decimal};
use crate::grid::{Cell, Color, GraphicsBuf, GridView, Point, lemma_with_cell};
use crate::random::{chance, random_below};

verus! {

/// A grain of sand: a color, a cell and a velocity in cells per frame.
#[derive(Debug, Copy, Clone)]
pub struct Particle {
    pub color: Color,
    pub position: Point,
    pub velocity: (i16, i16),
}

pub open spec fn sign(v: int) -> int {
    if v > 0 {
        1
    } else if v < 0 {
        -1
    } else {
        0
    }
}

pub open spec fn abs(v: int) -> int {
    if v < 0 {
        -v
    } else {
        v
    }
}

/// The cell that a ray at `(x, y)` heading for `(xd, yd)` enters next, or
/// `None` when every candidate cell is taken. The axis with the longer way to
/// go is tried first, then the diagonal, then either axis alone.
pub open spec fn next_cell(g: GridView, x: int, y: int, xd: int, yd: int) -> Option<(int, int)> {
    let dx = xd - x;
    let dy = yd - y;
    let nx = x + sign(dx);
    let ny = y + sign(dy);
    let can_hor = dx != 0 && g.is_blank(nx, y);
    let can_vert = dy != 0 && g.is_blank(x, ny);
    if abs(dx) > abs(dy) && can_hor {
        Some((nx, y))
    } else if abs(dy) > abs(dx) && can_vert {
        Some((x, ny))
    } else if (dx != 0 || dy != 0) && g.is_blank(nx, ny) {
        Some((nx, ny))
    } else if can_hor {
        Some((nx, y))
    } else if can_vert {
        Some((x, ny))
    } else {
        None
    }
}

/// Where a ray from `(x, y)` towards `(xd, yd)` comes to rest, taking one cell
/// at a time, and whether it was stopped before reaching `(xd, yd)`.
pub open spec fn ray_rest(g: GridView, x: int, y: int, xd: int, yd: int) -> (int, int, bool)
    decreases abs(xd - x) + abs(yd - y),
{
    if x == xd && y == yd {
        (x, y, false)
    } else {
        match next_cell(g, x, y, xd, yd) {
            Some(n) => ray_rest(g, n.0, n.1, xd, yd),
            None => (x, y, true),
        }
    }
}

/// A horizontal velocity after a bounce: reversed and scaled by 0.6,
/// truncated towards zero.
pub open spec fn bounce(v: int) -> int {
    if v >= 0 {
        -((v * 6) / 10)
    } else {
        ((-v) * 6) / 10
    }
}

/// Where the particle comes to rest in its movement over `g`.
pub open spec fn rest_of(g: GridView, p: Particle) -> (int, int, bool) {
    ray_rest(
        g,
        p.position.0 as int,
        p.position.1 as int,
        p.position.0 + p.velocity.0,
        p.position.1 + p.velocity.1,
    )
}

/// The velocity after the movement over `g`: unchanged when the particle got
/// where it was heading; when it was stopped short of its column, the
/// horizontal part bounces, else the vertical part drops to zero.
pub open spec fn velocity_after_move(g: GridView, p: Particle) -> (int, int) {
    let r = rest_of(g, p);
    if !r.2 {
        (p.velocity.0 as int, p.velocity.1 as int)
    } else if r.0 != p.position.0 + p.velocity.0 {
        (bounce(p.velocity.0 as int), p.velocity.1 as int)
    } else {
        (p.velocity.0 as int, 0)
    }
}

/// The grid after the particle has moved over `g`: its old cell blank and its
/// new cell in its color, or `g` itself when it stayed.
pub open spec fn grid_after_move(g: GridView, p: Particle) -> GridView {
    let r = rest_of(g, p);
    if r.0 == p.position.0 && r.1 == p.position.1 {
        g
    } else {
        g.with_cell(p.position.0 as int, p.position.1 as int, Cell::Blank).with_cell(
            r.0,
            r.1,
            Cell::Colored(p.color),
        )
    }
}

/// The particle after its movement over `g`.
pub open spec fn particle_after_move(g: GridView, p: Particle) -> Particle {
    let r = rest_of(g, p);
    let v = velocity_after_move(g, p);
    Particle { color: p.color, position: (r.0 as i16, r.1 as i16), velocity: (v.0 as i16, v.1 as i16) }
}

/// A ray only ever enters blank cells: where it rests is its start or a blank cell.
pub proof fn lemma_rest_is_blank(g: GridView, x: int, y: int, xd: int, yd: int)
    ensures
        ({
            let r = ray_rest(g, x, y, xd, yd);
            (r.0 == x && r.1 == y) || g.is_blank(r.0, r.1)
        }),
    decreases abs(xd - x) + abs(yd - y),
{
    if !(x == xd && y == yd) {
        if let Some(n) = next_cell(g, x, y, xd, yd) {
            lemma_rest_is_blank(g, n.0, n.1, xd, yd);
        }
    }
}

/// A ray that stays in its column and does not head downwards never ends
/// below its start.
proof fn lemma_column_ray_not_down(g: GridView, x: int, y: int, yd: int)
    requires
        yd <= y,
    ensures
        ray_rest(g, x, y, x, yd).0 == x,
        ray_rest(g, x, y, x, yd).1 <= y,
    decreases y - yd,
{
    if y != yd {
        if let Some(n) = next_cell(g, x, y, x, yd) {
            lemma_column_ray_not_down(g, n.0, n.1, yd);
        }
    }
}

/// A particle without horizontal velocity and with no blank cell directly
/// below it does not move downwards.
pub proof fn lemma_blocked_below_not_down(g: GridView, p: Particle)
    requires
        g.in_bounds(p.position.0 as int, p.position.1 as int),
        p.velocity.0 == 0,
        !g.is_blank(p.position.0 as int, p.position.1 + 1),
    ensures
        particle_after_move(g, p).position.1 <= p.position.1,
        particle_after_move(g, p).position.0 == p.position.0,
{
    let x = p.position.0 as int;
    let y = p.position.1 as int;
    let yd = y + p.velocity.1;
    lemma_rest_is_blank(g, x, y, x, yd);
    if yd <= y {
        lemma_column_ray_not_down(g, x, y, yd);
    } else {
        assert(next_cell(g, x, y, x, yd) is None);
    }
}

/// A particle stopped short of its column has its horizontal velocity
/// reversed and scaled by 0.6, truncated towards zero.
pub proof fn lemma_bounce_when_blocked_sideways(g: GridView, p: Particle)
    requires
        rest_of(g, p).2,
        rest_of(g, p).0 != p.position.0 + p.velocity.0,
    ensures
        particle_after_move(g, p).velocity.0 == bounce(p.velocity.0 as int),
        particle_after_move(g, p).velocity.1 == p.velocity.1,
{
    let v = p.velocity.0 as int;
    if v >= 0 {
        assert(0 <= (v * 6) / 10 <= v) by (nonlinear_arith)
            requires
                0 <= v,
        ;
    } else {
        assert(0 <= ((-v) * 6) / 10 <= -v) by (nonlinear_arith)
            requires
                v < 0,
        ;
    }
}

/// Whether the cell at `position` lies in the buffer and is blank.
pub fn is_free(buf: &GraphicsBuf, position: Point) -> (r: bool)
    requires
        buf.wf(),
    ensures
        r == buf@.is_blank(position.0 as int, position.1 as int),
{
    match buf.get(position) {
        Some(cell) => cell == Cell::Blank,
        None => false,
    }
}

/// A horizontal velocity after a bounce.
pub fn bounced(v: i16) -> (r: i16)
    ensures
        r == bounce(v as int),
{
    if v >= 0 {
        -((v as i32 * 6) / 10) as i16
    } else {
        (((-(v as i32)) * 6) / 10) as i16
    }
}

fn step_toward(from: i32, to: i32) -> (r: i32)
    requires
        i32::MIN < from < i32::MAX,
    ensures
        r == from + sign(to - from),
{
    if to > from {
        from + 1
    } else if to < from {
        from - 1
    } else {
        from
    }
}

/// Moves one particle through `buf` along its velocity, one cell at a time,
/// stopping where every way forward is taken.
pub fn move_particle(buf: &mut GraphicsBuf, particle: &mut Particle)
    requires
        old(buf).wf(),
        old(buf)@.in_bounds(old(particle).position.0 as int, old(particle).position.1 as int),
    ensures
        final(buf).wf(),
        final(buf)@ == grid_after_move(old(buf)@, *old(particle)),
        *final(particle) == particle_after_move(old(buf)@, *old(particle)),
{
    let g = Ghost(buf@);
    let x: i32 = particle.position.0 as i32;
    let y: i32 = particle.position.1 as i32;
    let x_dst: i32 = x + particle.velocity.0 as i32;
    let y_dst: i32 = y + particle.velocity.1 as i32;
    let mut x0: i32 = x;
    let mut y0: i32 = y;
    let mut collision = false;
    while !collision && (x0 != x_dst || y0 != y_dst)
        invariant
            buf.wf(),
            buf@ == g@,
            particle.color == old(particle).color,
            particle.position == old(particle).position,
            !collision ==> particle.velocity == old(particle).velocity,
            collision ==> particle.velocity.0 == velocity_after_move(g@, *old(particle)).0,
            collision ==> particle.velocity.1 == velocity_after_move(g@, *old(particle)).1,
            x == old(particle).position.0,
            y == old(particle).position.1,
            x_dst == x + old(particle).velocity.0,
            y_dst == y + old(particle).velocity.1,
            (x0 == x && y0 == y) || g@.is_blank(x0 as int, y0 as int),
            g@.in_bounds(x0 as int, y0 as int),
            !collision ==> ray_rest(g@, x0 as int, y0 as int, x_dst as int, y_dst as int) == ray_rest(
                g@,
                x as int,
                y as int,
                x_dst as int,
                y_dst as int,
            ),
            collision ==> ray_rest(g@, x as int, y as int, x_dst as int, y_dst as int) == (
                x0 as int,
                y0 as int,
                true,
            ),
        decreases abs(x_dst - x0) + abs(y_dst - y0) + (if collision { 0int } else { 1int }),
    {
        let dx: i32 = x_dst - x0;
        let dy: i32 = y_dst - y0;
        let next_x = step_toward(x0, x_dst);
        let next_y = step_toward(y0, y_dst);
        let can_move_hor = dx != 0 && is_free(buf, (next_x as i16, y0 as i16));
        let can_move_vert = dy != 0 && is_free(buf, (x0 as i16, next_y as i16));
        let adx: i32 = if dx < 0 { -dx } else { dx };
        let ady: i32 = if dy < 0 { -dy } else { dy };
        if adx > ady && can_move_hor {
            x0 = next_x;
        } else if ady > adx && can_move_vert {
            y0 = next_y;
        } else if (dx != 0 || dy != 0) && is_free(buf, (next_x as i16, next_y as i16)) {
            x0 = next_x;
            y0 = next_y;
        } else if can_move_hor {
            x0 = next_x;
        } else if can_move_vert {
            y0 = next_y;
        } else {
            collision = true;
            if x0 != x_dst {
                particle.velocity.0 = bounced(particle.velocity.0);
            } else {
                particle.velocity.1 = 0;
            }
        }
    }
    if x0 != x || y0 != y {
        proof {
            lemma_with_cell(buf@, x as int, y as int, Cell::Blank);
        }
        buf.set((x as i16, y as i16), Cell::Blank);
        buf.set((x0 as i16, y0 as i16), Cell::Colored(particle.color));
        particle.position = (x0 as i16, y0 as i16);
    }
}

/// The color of the fixed walls.
pub open spec fn solid_cell() -> Cell {
    Cell::Colored((120, 70, 70))
}

/// The color of the fixed walls.
pub fn solid() -> (r: Cell)
    ensures
        r == solid_cell(),
{
    Cell::Colored((120, 70, 70))
}

/// The chance outcomes that the forces on one particle depend on.
#[derive(Debug, Copy, Clone)]
pub struct ForceRolls {
    /// Gravity pulls one unit more (one time in ten).
    pub extra_gravity: bool,
    /// Friction slows a sliding particle (one time in two).
    pub friction: bool,
    /// A particle at rest first tries to fall down to the right, else to the left.
    pub right_first: bool,
    /// A particle on liquid drifts sideways (one time in five).
    pub drift: bool,
    /// The side of that drift: right, else left.
    pub drift_right: bool,
}

/// `v + d`, held at the largest `i16`.
pub open spec fn saturating_up(v: int, d: int) -> int {
    if v + d > i16::MAX {
        i16::MAX as int
    } else {
        v + d
    }
}

/// The velocity after gravity and friction: a particle with a blank cell below
/// falls one unit faster (two with `extra_gravity`); otherwise a sliding one
/// may lose one unit of horizontal speed.
pub open spec fn velocity_after_gravity(g: GridView, p: Particle, rolls: ForceRolls) -> (int, int) {
    let x = p.position.0 as int;
    let y = p.position.1 as int;
    let vx = p.velocity.0 as int;
    let vy = p.velocity.1 as int;
    if g.is_blank(x, y + 1) {
        (vx, saturating_up(vy, if rolls.extra_gravity { 2 } else { 1 }))
    } else if vx != 0 && rolls.friction {
        (vx - sign(vx), vy)
    } else {
        (vx, vy)
    }
}

/// The velocity after all forces on a particle over `g`. A particle left at
/// rest by gravity and friction falls diagonally where it can, else moves
/// towards the one open side, else, on liquid (a colored cell that is not a
/// wall), may drift to a blank side.
pub open spec fn velocity_after_forces(g: GridView, p: Particle, rolls: ForceRolls) -> (int, int) {
    let x = p.position.0 as int;
    let y = p.position.1 as int;
    let v = velocity_after_gravity(g, p, rolls);
    let d = if rolls.right_first { 1int } else { -1int };
    let dd = if rolls.drift_right { 1int } else { -1int };
    if v != (0int, 0int) {
        v
    } else if g.is_blank(x + d, y + 1) {
        (d, 1)
    } else if g.is_blank(x - d, y + 1) {
        (-d, 1)
    } else if g.is_blank(x - 1, y) && !g.is_blank(x + 1, y) {
        (-1, 0)
    } else if g.is_blank(x + 1, y) && !g.is_blank(x - 1, y) {
        (1, 0)
    } else if (g.cell(x, y + 1) matches Some(c) && c != Cell::Blank && c != solid_cell())
        && rolls.drift && g.is_blank(x + dd, y) {
        (dd, 0)
    } else {
        (0, 0)
    }
}

/// Sets the velocity of one particle from gravity, friction and its
/// surroundings in `buf`.
pub fn apply_forces(buf: &GraphicsBuf, particle: &mut Particle, rolls: ForceRolls)
    requires
        buf.wf(),
        buf@.in_bounds(old(particle).position.0 as int, old(particle).position.1 as int),
    ensures
        final(particle).color == old(particle).color,
        final(particle).position == old(particle).position,
        final(particle).velocity.0 == velocity_after_forces(buf@, *old(particle), rolls).0,
        final(particle).velocity.1 == velocity_after_forces(buf@, *old(particle), rolls).1,
        buf@.is_blank(old(particle).position.0 as int, old(particle).position.1 + 1)
            && old(particle).velocity == (0i16, 0i16) ==> 1 <= final(particle).velocity.1 <= 2,
{
    let x = particle.position.0;
    let y = particle.position.1;
    if is_free(buf, (x, y + 1)) {
        if particle.velocity.1 < i16::MAX {
            particle.velocity.1 = particle.velocity.1 + 1;
        }
        if rolls.extra_gravity && particle.velocity.1 < i16::MAX {
            particle.velocity.1 = particle.velocity.1 + 1;
        }
    } else if particle.velocity.0 != 0 && rolls.friction {
        if particle.velocity.0 > 0 {
            particle.velocity.0 = particle.velocity.0 - 1;
        } else {
            particle.velocity.0 = particle.velocity.0 + 1;
        }
    }
    if particle.velocity.0 == 0 && particle.velocity.1 == 0 {
        let d: i16 = if rolls.right_first { 1 } else { -1 };
        if is_free(buf, (x + d, y + 1)) {
            particle.velocity = (d, 1);
        } else if is_free(buf, (x - d, y + 1)) {
            particle.velocity = (-d, 1);
        } else if is_free(buf, (x - 1, y)) && !is_free(buf, (x + 1, y)) {
            particle.velocity.0 = -1;
        } else if is_free(buf, (x + 1, y)) && !is_free(buf, (x - 1, y)) {
            particle.velocity.0 = 1;
        } else {
            let on_liquid = match buf.get((x, y + 1)) {
                Some(cell) => cell != Cell::Blank && cell != solid(),
                None => false,
            };
            if on_liquid && rolls.drift {
                let dd: i16 = if rolls.drift_right { 1 } else { -1 };
                if is_free(buf, (x + dd, y)) {
                    particle.velocity.0 = dd;
                }
            }
        }
    }
}

/// The particle sits on a cell of `g` that is not blank.
pub open spec fn occupies(g: GridView, p: Particle) -> bool {
    &&& g.in_bounds(p.position.0 as int, p.position.1 as int)
    &&& g.cell(p.position.0 as int, p.position.1 as int) == Some(Cell::Colored(p.color))
    &&& Cell::Colored(p.color) != solid_cell()
}

/// A cell painted by something other than a wall.
pub open spec fn painted(c: Option<Cell>) -> bool {
    match c {
        Some(v) => v != Cell::Blank && v != solid_cell(),
        None => false,
    }
}

/// Some particle sits at `(x, y)`.
pub open spec fn holds_particle(ps: Seq<Particle>, x: int, y: int) -> bool {
    exists|i: int| 0 <= i < ps.len() && #[trigger] ps[i].position.0 == x && ps[i].position.1 == y
}

/// Every particle sits on a cell of the grid painted in its own color (not
/// the wall color), no two share a cell, and every painted cell that is not a
/// wall holds a particle.
pub open spec fn contained(g: GridView, ps: Seq<Particle>) -> bool {
    &&& forall|i: int| 0 <= i < ps.len() ==> occupies(g, #[trigger] ps[i])
    &&& forall|i: int, j: int|
        0 <= i < ps.len() && 0 <= j < ps.len() && i != j ==> #[trigger] ps[i].position
            != #[trigger] ps[j].position
    &&& forall|x: int, y: int| painted(#[trigger] g.cell(x, y)) ==> holds_particle(ps, x, y)
}

/// The two grids have the same size and the same wall cells.
pub open spec fn same_walls(g1: GridView, g2: GridView) -> bool {
    &&& g1.width == g2.width
    &&& g1.height == g2.height
    &&& forall|x: int, y: int|
        #![trigger g1.cell(x, y)]
        #![trigger g2.cell(x, y)]
        (g1.cell(x, y) == Some(solid_cell())) == (g2.cell(x, y) == Some(solid_cell()))
}

/// The grid and the particles after the first `n` particles have moved, one
/// after the other, each over the grid that the ones before it left.
pub open spec fn moved_prefix(g: GridView, ps: Seq<Particle>, n: nat) -> (GridView, Seq<Particle>)
    decreases n,
{
    if n == 0 {
        (g, ps)
    } else {
        let prev = moved_prefix(g, ps, (n - 1) as nat);
        let p = prev.1[n - 1];
        (grid_after_move(prev.0, p), prev.1.update(n - 1, particle_after_move(prev.0, p)))
    }
}

/// The particles after the forces over `g`, each with its own rolls.
pub open spec fn pushed_by_forces(g: GridView, ps: Seq<Particle>, rolls: Seq<ForceRolls>) -> Seq<
    Particle,
> {
    Seq::new(
        ps.len(),
        |i: int|
            {
                let v = velocity_after_forces(g, ps[i], rolls[i]);
                Particle { velocity: (v.0 as i16, v.1 as i16), ..ps[i] }
            },
    )
}

/// The cell where a particle may appear, by slot.
pub open spec fn spawn_point(slot: int) -> (int, int) {
    if slot == 0 {
        (0, 1)
    } else if slot == 1 {
        (0, 0)
    } else {
        (0, 2)
    }
}

/// The colors of new particles, by index.
pub open spec fn spawn_color(index: int) -> Color {
    if index == 0 {
        (100, 160, 220)
    } else if index == 1 {
        (120, 120, 250)
    } else {
        (150, 150, 250)
    }
}

/// Moving one particle keeps every particle on its own painted cell, and
/// leaves the walls as they were.
pub proof fn lemma_move_keeps_contained(g: GridView, ps: Seq<Particle>, i: int)
    requires
        g.wf(),
        contained(g, ps),
        0 <= i < ps.len(),
    ensures
        grid_after_move(g, ps[i]).wf(),
        contained(grid_after_move(g, ps[i]), ps.update(i, particle_after_move(g, ps[i]))),
        same_walls(g, grid_after_move(g, ps[i])),
{
    let p = ps[i];
    let r = rest_of(g, p);
    let g2 = grid_after_move(g, p);
    let ps2 = ps.update(i, particle_after_move(g, p));
    assert(occupies(g, p));
    lemma_rest_is_blank(
        g,
        p.position.0 as int,
        p.position.1 as int,
        p.position.0 + p.velocity.0,
        p.position.1 + p.velocity.1,
    );
    let moved = !(r.0 == p.position.0 && r.1 == p.position.1);
    if moved {
        let g1 = g.with_cell(p.position.0 as int, p.position.1 as int, Cell::Blank);
        lemma_with_cell(g, p.position.0 as int, p.position.1 as int, Cell::Blank);
        lemma_with_cell(g1, r.0, r.1, Cell::Colored(p.color));
        assert forall|j: int| 0 <= j < ps2.len() implies occupies(g2, #[trigger] ps2[j]) by {
            if j != i {
                assert(ps[j].position != p.position);
                assert(occupies(g, ps[j]));
            }
        }
        assert forall|j: int, k: int|
            0 <= j < ps2.len() && 0 <= k < ps2.len() && j != k implies #[trigger] ps2[j].position
            != #[trigger] ps2[k].position by {
            if j != i && k != i {
                assert(ps[j].position != ps[k].position);
            } else if j == i {
                assert(occupies(g, ps[k]));
            } else {
                assert(occupies(g, ps[j]));
            }
        }
    } else {
        assert forall|j: int| 0 <= j < ps2.len() implies occupies(g2, #[trigger] ps2[j]) by {
            assert(occupies(g, ps[j]));
        }
        assert forall|j: int, k: int|
            0 <= j < ps2.len() && 0 <= k < ps2.len() && j != k implies #[trigger] ps2[j].position
            != #[trigger] ps2[k].position by {
            assert(ps[j].position != ps[k].position);
        }
    }
    assert forall|x: int, y: int| painted(#[trigger] g2.cell(x, y)) implies holds_particle(ps2, x, y) by {
        if moved && x == r.0 && y == r.1 {
            assert(ps2[i].position.0 == x && ps2[i].position.1 == y);
        } else {
            assert(g2.cell(x, y) == g.cell(x, y));
            let j = choose|j: int| 0 <= j < ps.len() && #[trigger] ps[j].position.0 == x && ps[j].position.1 == y;
            if j == i {
                assert(ps2[i].position == ps[i].position);
            }
            assert(ps2[j].position.0 == x && ps2[j].position.1 == y);
        }
    }
    assert forall|x: int, y: int|
        #![trigger g.cell(x, y)]
        #![trigger g2.cell(x, y)]
        (g.cell(x, y) == Some(solid_cell())) == (g2.cell(x, y) == Some(solid_cell())) by {
    }
}

/// The spawn rate after `key`: 'w' raises it by five hundredths up to 100,
/// 's' lowers it by five down to 0.
pub open spec fn rate_after_key(rate: int, key: char) -> int {
    if key == 'w' {
        if rate + 5 > 100 {
            100
        } else {
            rate + 5
        }
    } else if key == 's' {
        if rate < 5 {
            0
        } else {
            rate - 5
        }
    } else {
        rate
    }
}

/// The horizontal spawn velocity after `key`: 'a' lowers it by one down to
/// 1, 'd' raises it by one up to 10.
pub open spec fn speed_after_key(v: int, key: char) -> int {
    if key == 'a' {
        if v - 1 < 1 {
            1
        } else {
            v - 1
        }
    } else if key == 'd' {
        if v + 1 > 10 {
            10
        } else {
            v + 1
        }
    } else {
        v
    }
}

/// The spawn rate and horizontal spawn velocity after the keys in order.
pub open spec fn after_keys(rate: int, v: int, keys: Seq<char>) -> (int, int)
    decreases keys.len(),
{
    if keys.len() == 0 {
        (rate, v)
    } else {
        let before = after_keys(rate, v, keys.drop_last());
        (rate_after_key(before.0, keys.last()), speed_after_key(before.1, keys.last()))
    }
}

/// However many keys are pressed, the spawn rate stays within `[0, 100]`
/// hundredths and the horizontal spawn velocity within `[1, 10]`.
pub proof fn lemma_spawn_settings_bounded(rate: int, v: int, keys: Seq<char>)
    requires
        0 <= rate <= 100,
        1 <= v <= 10,
    ensures
        0 <= after_keys(rate, v, keys).0 <= 100,
        1 <= after_keys(rate, v, keys).1 <= 10,
    decreases keys.len(),
{
    if keys.len() > 0 {
        lemma_spawn_settings_bounded(rate, v, keys.drop_last());
    }
}

/// The walls of the sand box.
pub open spec fn wall_at(x: int, y: int) -> bool {
    ||| y == 3 && 0 <= x <= 10
    ||| y == 13 && 12 <= x <= 18
    ||| x == 18 && 11 <= y <= 12
    ||| x == 5 && 25 <= y <= 26
    ||| x == 6 && 26 <= y <= 29
    ||| x == 7 && 26 <= y <= 29
    ||| x == 8 && 25 <= y <= 26
}

/// Paints every cell from `from` to `to` (corners included) as a wall.
fn paint_rect(buf: &mut GraphicsBuf, from: Point, to: Point)
    requires
        old(buf).wf(),
        0 <= from.0 <= to.0 < old(buf)@.width,
        0 <= from.1 <= to.1 < old(buf)@.height,
    ensures
        final(buf).wf(),
        final(buf)@.width == old(buf)@.width,
        final(buf)@.height == old(buf)@.height,
        forall|x: int, y: int|
            #[trigger] final(buf)@.cell(x, y) == if from.0 <= x <= to.0 && from.1 <= y <= to.1 {
                Some(solid_cell())
            } else {
                old(buf)@.cell(x, y)
            },
{
    let ghost g = buf@;
    let mut y = from.1;
    while y <= to.1
        invariant
            buf.wf(),
            buf@.width == g.width,
            buf@.height == g.height,
            g.wf(),
            0 <= from.0 <= to.0 < g.width,
            0 <= from.1 <= y <= to.1 + 1,
            to.1 < g.height,
            forall|i: int, j: int|
                #[trigger] buf@.cell(i, j) == if from.0 <= i <= to.0 && from.1 <= j < y {
                    Some(solid_cell())
                } else {
                    g.cell(i, j)
                },
        decreases to.1 + 1 - y,
    {
        let mut x = from.0;
        while x <= to.0
            invariant
                buf.wf(),
                buf@.width == g.width,
                buf@.height == g.height,
                g.wf(),
                0 <= from.0 <= x <= to.0 + 1,
                to.0 < g.width,
                0 <= from.1 <= y <= to.1,
                to.1 < g.height,
                forall|i: int, j: int|
                    #[trigger] buf@.cell(i, j) == if from.0 <= i <= to.0 && (from.1 <= j < y || (j == y
                        && i < x)) {
                        Some(solid_cell())
                    } else {
                        g.cell(i, j)
                    },
            decreases to.0 + 1 - x,
        {
            proof {
                lemma_with_cell(buf@, x as int, y as int, solid_cell());
            }
            buf.set((x, y), solid());
            x = x + 1;
        }
        y = y + 1;
    }
}

/// The status text: the number of particles, the spawn rate as a fraction
/// with two decimals, and the spawn velocity.
pub open spec fn status_text(count: nat, rate: int, v: (i16, i16)) -> Seq<char> {
    "Particles: "@ + decimal(count) + "\nSpawn rate: "@ + decimal((rate / 100) as nat) + "."@ + (if rate
        % 100 < 10 {
        "0"@
    } else {
        Seq::<char>::empty()
    }) + decimal((rate % 100) as nat) + "\nSpawn velocity: ["@ + decimal(v.0 as nat) + ", "@ + decimal(
        v.1 as nat,
    ) + "]"@
}

/// Keeping the walls twice keeps them.
proof fn lemma_same_walls_trans(g1: GridView, g2: GridView, g3: GridView)
    requires
        same_walls(g1, g2),
        same_walls(g2, g3),
    ensures
        same_walls(g1, g3),
{
    assert forall|x: int, y: int|
        #![trigger g1.cell(x, y)]
        #![trigger g3.cell(x, y)]
        (g1.cell(x, y) == Some(solid_cell())) == (g3.cell(x, y) == Some(solid_cell())) by {
        assert((g1.cell(x, y) == Some(solid_cell())) == (g2.cell(x, y) == Some(solid_cell())));
    }
}

/// One frame from `before` to `after` with the given rolls (one per
/// particle) and spawn choice: every particle moves in turn, then the forces
/// set the velocities over the grid the moves left, then a particle is
/// spawned when `spawn` names a slot whose cell is blank. The walls, the
/// spawn rate and the spawn velocity stay as they were.
pub open spec fn stepped(
    before: Particles,
    after: Particles,
    rolls: Seq<ForceRolls>,
    spawn: Option<(usize, usize)>,
) -> bool {
    let moved = moved_prefix(before.grid(), before.items(), before.items().len());
    let pushed = pushed_by_forces(moved.0, moved.1, rolls);
    &&& match spawn {
        None => after.grid() == moved.0 && after.items() == pushed,
        Some(s) => {
            let at = spawn_point(s.0 as int);
            let born = Particle {
                color: spawn_color(s.1 as int),
                position: (at.0 as i16, at.1 as i16),
                velocity: before.start_velocity(),
            };
            if moved.0.is_blank(at.0, at.1) {
                after.grid() == moved.0.with_cell(at.0, at.1, Cell::Colored(born.color))
                    && after.items() == pushed.push(born)
            } else {
                after.grid() == moved.0 && after.items() == pushed
            }
        },
    }
    &&& same_walls(before.grid(), after.grid())
    &&& after.status() == Some(status_text(after.items().len(), after.rate(), after.start_velocity()))
    &&& after.title() == before.title()
    &&& after.panel() is Some && after.panel()->Some_0.items@.len() == 2
    &&& after.panel()->Some_0.items@[1] == before.panel()->Some_0.items@[1]
    &&& after.rate() == before.rate()
    &&& after.start_velocity() == before.start_velocity()
}

/// The settings after a key: see `rate_after_key` and `speed_after_key`;
/// the grid, the particles, the panel and the title stay as they were, and
/// other keys change nothing.
pub open spec fn keyed(before: Particles, after: Particles, key: char) -> bool {
    &&& key != 'w' && key != 's' && key != 'a' && key != 'd' ==> after == before
    &&& after.panel() == before.panel()
    &&& after.title() == before.title()
    &&& after.grid() == before.grid()
    &&& after.items() == before.items()
    &&& after.rate() == rate_after_key(before.rate(), key)
    &&& after.start_velocity().0 == speed_after_key(before.start_velocity().0 as int, key)
    &&& after.start_velocity().1 == before.start_velocity().1
}

/// A falling-sand simulation: particles pour in at the top left and pile up
/// on a few walls.
pub struct Particles {
    graphics: Graphics,
    particles: Vec<Particle>,
    /// The chance of a new particle each frame, in hundredths.
    spawn_rate: u32,
    spawn_velocity: (i16, i16),
}

impl Particles {
    /// The grid that the particles live in.
    pub closed spec fn grid(&self) -> GridView {
        self.graphics.buf@
    }

    /// The particles, in the order in which they move.
    pub closed spec fn items(&self) -> Seq<Particle> {
        self.particles@
    }

    /// The chance of a new particle each frame, in hundredths.
    pub closed spec fn rate(&self) -> int {
        self.spawn_rate as int
    }

    /// The velocity of new particles.
    pub closed spec fn start_velocity(&self) -> (i16, i16) {
        self.spawn_velocity
    }

    /// The side panel holds the status text first and the help text second.
    pub closed spec fn panel_ok(&self) -> bool {
        &&& self.graphics.buf.wf()
        &&& self.graphics.side_panel matches Some(p) && p.items@.len() == 2
    }

    pub fn new() -> (r: (Self, RunConfig))
        ensures
            r.0.valid(),
            r.0.items().len() == 0,
            r.0.rate() == 10,
            r.0.start_velocity() == (1i16, 0i16),
            r.0.grid().width == 30 && r.0.grid().height == 30,
            forall|x: int, y: int|
                r.0.grid().in_bounds(x, y) ==> #[trigger] r.0.grid().cell(x, y) == Some(
                    if wall_at(x, y) {
                        solid_cell()
                    } else {
                        Cell::Blank
                    },
                ),
            r.1.frame_rate == 5,
    {
        let mut buf = GraphicsBuf::new((30, 30));
        paint_rect(&mut buf, (0, 3), (10, 3));
        paint_rect(&mut buf, (12, 13), (18, 13));
        paint_rect(&mut buf, (18, 11), (18, 12));
        paint_rect(&mut buf, (6, 26), (6, 29));
        paint_rect(&mut buf, (5, 25), (5, 26));
        paint_rect(&mut buf, (7, 26), (7, 29));
        paint_rect(&mut buf, (8, 25), (8, 26));
        let graphics = Graphics::new(
            "Particles".to_string(),
            Some(
                SidePanel {
                    items: vec![
                        PanelItem::TextItem { text: "".to_string() },
                        PanelItem::TextItem {
                            text: "Control spawn rate with 'W' and 'S'\nControl spawn velocity with 'A' and 'D'".to_string(),
                        },
                    ],
                },
            ),
            buf,
        );
        let mut this = Self {
            graphics,
            particles: Vec::new(),
            spawn_rate: 10,
            spawn_velocity: (1, 0),
        };
        this.update_info_text();
        (this, RunConfig { frame_rate: 5 })
    }

    /// The side panel.
    pub closed spec fn panel(&self) -> Option<SidePanel> {
        self.graphics.side_panel
    }

    /// The title shown above the grid.
    pub closed spec fn title(&self) -> Seq<char> {
        self.graphics.title@
    }

    /// The status text in the side panel, if there is one.
    pub closed spec fn status(&self) -> Option<Seq<char>> {
        match self.graphics.side_panel {
            Some(p) => match p.items@[0] {
                PanelItem::TextItem { text } => Some(text@),
                _ => None,
            },
            None => None,
        }
    }

    /// Puts the particle count, the spawn rate and the spawn velocity in the
    /// first item of the side panel.
    fn update_info_text(&mut self)
        requires
            old(self).panel_ok(),
            0 <= old(self).spawn_rate <= 100,
            0 <= old(self).spawn_velocity.0,
            0 <= old(self).spawn_velocity.1,
        ensures
            final(self).panel_ok(),
            final(self).status() == Some(
                status_text(old(self).items().len(), old(self).rate(), old(self).start_velocity()),
            ),
            final(self).graphics.buf == old(self).graphics.buf,
            final(self).graphics.title == old(self).graphics.title,
            final(self).graphics.side_panel->Some_0.items@[1] == old(self).graphics.side_panel->Some_0.items@[1],
            final(self).particles == old(self).particles,
            final(self).spawn_rate == old(self).spawn_rate,
            final(self).spawn_velocity == old(self).spawn_velocity,
    {
        let mut text = "Particles: ".to_string();
        append_decimal(&mut text, self.particles.len() as u64);
        text.append("\nSpawn rate: ");
        append_decimal(&mut text, (self.spawn_rate / 100) as u64);
        text.append(".");
        if self.spawn_rate % 100 < 10 {
            text.append("0");
        }
        append_decimal(&mut text, (self.spawn_rate % 100) as u64);
        text.append("\nSpawn velocity: [");
        append_decimal(&mut text, self.spawn_velocity.0 as u64);
        text.append(", ");
        append_decimal(&mut text, self.spawn_velocity.1 as u64);
        text.append("]");
        let ghost shown = text@;
        self.graphics.set_panel_item(0, PanelItem::TextItem { text });
        assert(shown =~= status_text(old(self).items().len(), old(self).rate(), old(self).start_velocity()));
    }

    /// The number of particles.
    pub fn particle_count(&self) -> (r: usize)
        ensures
            r == self.items().len(),
    {
        self.particles.len()
    }

    /// The particle at `index`, in the order in which they move.
    pub fn particle(&self, index: usize) -> (r: Particle)
        requires
            index < self.items().len(),
        ensures
            r == self.items()[index as int],
    {
        self.particles[index]
    }

    /// The chance of a new particle each frame, in hundredths.
    pub fn spawn_rate(&self) -> (r: u32)
        ensures
            r == self.rate(),
    {
        self.spawn_rate
    }

    /// The velocity of new particles.
    pub fn spawn_velocity(&self) -> (r: (i16, i16))
        ensures
            r == self.start_velocity(),
    {
        self.spawn_velocity
    }

    /// Moves every particle in turn, each over the grid that the ones before
    /// it left.
    pub fn move_particles(&mut self)
        requires
            old(self).valid(),
        ensures
            final(self).valid(),
            final(self).items().len() == old(self).items().len(),
            (final(self).grid(), final(self).items()) == moved_prefix(
                old(self).grid(),
                old(self).items(),
                old(self).items().len(),
            ),
            same_walls(old(self).grid(), final(self).grid()),
            final(self).rate() == old(self).rate(),
            final(self).start_velocity() == old(self).start_velocity(),
            final(self).panel() == old(self).panel(),
            final(self).title() == old(self).title(),
    {
        let n = self.particles.len();
        let mut i: usize = 0;
        while i < n
            invariant
                0 <= i <= n,
                n == old(self).items().len(),
                self.particles@.len() == n,
                self.panel_ok(),
                self.graphics.buf.wf(),
                contained(self.graphics.buf@, self.particles@),
                (self.graphics.buf@, self.particles@) == moved_prefix(
                    old(self).grid(),
                    old(self).items(),
                    i as nat,
                ),
                same_walls(old(self).grid(), self.graphics.buf@),
                self.graphics.side_panel == old(self).graphics.side_panel,
                self.graphics.title == old(self).graphics.title,
                self.spawn_rate == old(self).spawn_rate,
                self.spawn_velocity == old(self).spawn_velocity,
                0 <= self.spawn_rate <= 100,
                1 <= self.spawn_velocity.0 <= 10,
                self.spawn_velocity.1 == 0,
            decreases n - i,
        {
            let mut p = self.particles[i];
            proof {
                lemma_move_keeps_contained(self.graphics.buf@, self.particles@, i as int);
            }
            move_particle(&mut self.graphics.buf, &mut p);
            self.particles.set(i, p);
            i = i + 1;
        }
    }

    /// Sets the velocity of every particle from the forces on it, the
    /// particle at index `i` with `rolls[i]`.
    pub fn push_particles(&mut self, rolls: &Vec<ForceRolls>)
        requires
            old(self).valid(),
            rolls@.len() == old(self).items().len(),
        ensures
            final(self).valid(),
            final(self).grid() == old(self).grid(),
            final(self).items() == pushed_by_forces(old(self).grid(), old(self).items(), rolls@),
            final(self).rate() == old(self).rate(),
            final(self).start_velocity() == old(self).start_velocity(),
            final(self).panel() == old(self).panel(),
            final(self).title() == old(self).title(),
    {
        let n = self.particles.len();
        let mut i: usize = 0;
        while i < n
            invariant
                0 <= i <= n,
                n == old(self).items().len(),
                rolls@.len() == n,
                self.particles@.len() == n,
                self.panel_ok(),
                self.graphics == old(self).graphics,
                forall|k: int| 0 <= k < i ==> #[trigger] self.particles@[k] == pushed_by_forces(
                    old(self).grid(),
                    old(self).items(),
                    rolls@,
                )[k],
                forall|k: int| i <= k < n ==> #[trigger] self.particles@[k] == old(self).items()[k],
                contained(old(self).grid(), old(self).items()),
                self.spawn_rate == old(self).spawn_rate,
                self.spawn_velocity == old(self).spawn_velocity,
            decreases n - i,
        {
            let mut p = self.particles[i];
            assert(occupies(self.graphics.buf@, old(self).items()[i as int]));
            apply_forces(&self.graphics.buf, &mut p, rolls[i]);
            self.particles.set(i, p);
            i = i + 1;
        }
        assert(self.particles@ =~= pushed_by_forces(old(self).grid(), old(self).items(), rolls@));
        assert forall|j: int, k: int|
            0 <= j < n && 0 <= k < n && j != k implies #[trigger] self.particles@[j].position
            != #[trigger] self.particles@[k].position by {
            assert(old(self).items()[j].position != old(self).items()[k].position);
        }
        assert forall|j: int| 0 <= j < n implies occupies(self.graphics.buf@, #[trigger] self.particles@[j]) by {
            assert(occupies(self.graphics.buf@, old(self).items()[j]));
        }
        assert forall|x: int, y: int| painted(#[trigger] self.graphics.buf@.cell(x, y)) implies holds_particle(
            self.particles@,
            x,
            y,
        ) by {
            let ps = old(self).items();
            let j = choose|j: int| 0 <= j < ps.len() && #[trigger] ps[j].position.0 == x && ps[j].position.1 == y;
            assert(self.particles@[j].position.0 == x && self.particles@[j].position.1 == y);
        }
    }

    /// Adds a particle in the given color at the given cell with the given
    /// velocity, if that cell is blank.
    pub fn add_particle(&mut self, position: Point, velocity: (i16, i16), color: Color) -> (r: bool)
        requires
            old(self).valid(),
            Cell::Colored(color) != solid_cell(),
        ensures
            final(self).valid(),
            r == old(self).grid().is_blank(position.0 as int, position.1 as int),
            r ==> final(self).items() == old(self).items().push(
                Particle { color, position, velocity },
            ),
            r ==> final(self).grid() == old(self).grid().with_cell(
                position.0 as int,
                position.1 as int,
                Cell::Colored(color),
            ),
            !r ==> final(self).items() == old(self).items() && final(self).grid() == old(self).grid(),
            same_walls(old(self).grid(), final(self).grid()),
            final(self).rate() == old(self).rate(),
            final(self).start_velocity() == old(self).start_velocity(),
            final(self).panel() == old(self).panel(),
            final(self).title() == old(self).title(),
    {
        if !is_free(&self.graphics.buf, position) {
            return false;
        }
        let ghost g = self.graphics.buf@;
        let ghost ps = self.particles@;
        proof {
            lemma_with_cell(g, position.0 as int, position.1 as int, Cell::Colored(color));
        }
        self.graphics.buf.set(position, Cell::Colored(color));
        self.particles.push(Particle { color, position, velocity });
        proof {
            let ps2 = self.particles@;
            assert forall|j: int| 0 <= j < ps2.len() implies occupies(self.graphics.buf@, #[trigger] ps2[j]) by {
                if j < ps.len() {
                    assert(occupies(g, ps[j]));
                    assert(ps[j].position != position);
                }
            }
            assert forall|j: int, k: int|
                0 <= j < ps2.len() && 0 <= k < ps2.len() && j != k implies #[trigger] ps2[j].position
                != #[trigger] ps2[k].position by {
                if j < ps.len() && k < ps.len() {
                    assert(ps[j].position != ps[k].position);
                } else if j < ps.len() {
                    assert(occupies(g, ps[j]));
                } else {
                    assert(occupies(g, ps[k]));
                }
            }
            assert forall|x: int, y: int| painted(#[trigger] self.graphics.buf@.cell(x, y)) implies holds_particle(
                ps2,
                x,
                y,
            ) by {
                if x == position.0 && y == position.1 {
                    assert(ps2[ps.len() as int].position.0 == x && ps2[ps.len() as int].position.1 == y);
                } else {
                    let j = choose|j: int| 0 <= j < ps.len() && #[trigger] ps[j].position.0 == x && ps[j].position.1 == y;
                    assert(ps2[j].position.0 == x && ps2[j].position.1 == y);
                }
            }
        }
        true
    }

    /// Drops a new particle into spawn slot `slot` (of three) with palette
    /// color `color_index` (of three) and the spawn velocity, if that cell is
    /// blank.
    pub fn spawn(&mut self, slot: usize, color_index: usize) -> (r: bool)
        requires
            old(self).valid(),
            slot < 3,
            color_index < 3,
        ensures
            final(self).valid(),
            r == old(self).grid().is_blank(spawn_point(slot as int).0, spawn_point(slot as int).1),
            r ==> final(self).items() == old(self).items().push(
                Particle {
                    color: spawn_color(color_index as int),
                    position: (spawn_point(slot as int).0 as i16, spawn_point(slot as int).1 as i16),
                    velocity: old(self).start_velocity(),
                },
            ),
            r ==> final(self).grid() == old(self).grid().with_cell(
                spawn_point(slot as int).0,
                spawn_point(slot as int).1,
                Cell::Colored(spawn_color(color_index as int)),
            ),
            !r ==> final(self).items() == old(self).items() && final(self).grid() == old(self).grid(),
            same_walls(old(self).grid(), final(self).grid()),
            final(self).rate() == old(self).rate(),
            final(self).start_velocity() == old(self).start_velocity(),
            final(self).panel() == old(self).panel(),
            final(self).title() == old(self).title(),
    {
        let positions: [(i16, i16); 3] = [(0, 1), (0, 0), (0, 2)];
        let colors: [Color; 3] = [(100, 160, 220), (120, 120, 250), (150, 150, 250)];
        let velocity = self.spawn_velocity;
        self.add_particle(positions[slot], velocity, colors[color_index])
    }

    /// One frame: every particle moves, then the forces set the velocities,
    /// then a particle is spawned when `spawn` names a slot and a color.
    pub fn step(&mut self, rolls: &Vec<ForceRolls>, spawn: Option<(usize, usize)>)
        requires
            old(self).valid(),
            rolls@.len() == old(self).items().len(),
            spawn matches Some(s) ==> s.0 < 3 && s.1 < 3,
        ensures
            final(self).valid(),
            stepped(*old(self), *final(self), rolls@, spawn),
            final(self).rate() == old(self).rate(),
            final(self).start_velocity() == old(self).start_velocity(),
    {
        let ghost g0 = self.grid();
        self.move_particles();
        let ghost g1 = self.grid();
        self.push_particles(rolls);
        match spawn {
            Some(s) => {
                self.spawn(s.0, s.1);
            },
            None => {},
        }
        self.update_info_text();
        proof {
            lemma_same_walls_trans(g0, g1, self.grid());
        }
    }
}

impl App for Particles {
    open spec fn valid(&self) -> bool {
        &&& self.panel_ok()
        &&& self.grid().wf()
        &&& contained(self.grid(), self.items())
        &&& 0 <= self.rate() <= 100
        &&& 1 <= self.start_velocity().0 <= 10
        &&& self.start_velocity().1 == 0
    }

    /// One frame with rolls and a spawn choice drawn at random: the spawn
    /// happens with a chance of `rate()` hundredths, never at rate 0 and
    /// always at rate 100.
    fn run_frame(&mut self)
        ensures
            exists|rolls: Seq<ForceRolls>, spawn: Option<(usize, usize)>|
                rolls.len() == old(self).items().len() && (spawn matches Some(s) ==> s.0 < 3 && s.1
                    < 3) && (old(self).rate() == 0 ==> spawn is None) && (old(self).rate() == 100
                    ==> spawn is Some) && #[trigger] stepped(
                    *old(self),
                    *final(self),
                    rolls,
                    spawn,
                ),
    {
        let n = self.particles.len();
        let mut rolls: Vec<ForceRolls> = Vec::new();
        let mut i: usize = 0;
        while i < n
            invariant
                i <= n,
                rolls@.len() == i,
            decreases n - i,
        {
            rolls.push(
                ForceRolls {
                    extra_gravity: chance(1, 10),
                    friction: chance(1, 2),
                    right_first: random_below(2) == 1,
                    drift: chance(1, 5),
                    drift_right: random_below(2) == 1,
                },
            );
            i = i + 1;
        }
        let spawn = if chance(self.spawn_rate, 100) {
            Some((random_below(3), random_below(3)))
        } else {
            None
        };
        self.step(&rolls, spawn);
        assert(stepped(*old(self), *self, rolls@, spawn));
    }

    fn handle_pressed_key(&mut self, key: char)
        ensures
            keyed(*old(self), *final(self), key),
    {
        self.adjust_spawning(key);
    }

    fn handle_released_key(&mut self, key: char)
        ensures
            *final(self) == *old(self),
    {
    }

    fn graphics(&self) -> (r: &Graphics)
        ensures
            r.buf@ == self.grid(),
            r.side_panel == self.panel(),
            r.title@ == self.title(),
    {
        &self.graphics
    }
}

impl Particles {
    /// 'w' and 's' raise and lower the spawn rate by five hundredths within
    /// `[0, 100]`; 'a' and 'd' lower and raise the horizontal spawn velocity
    /// by one within `[1, 10]`. Other keys change nothing.
    pub fn adjust_spawning(&mut self, key: char)
        requires
            old(self).valid(),
        ensures
            final(self).valid(),
            keyed(*old(self), *final(self), key),
    {
        if key == 'w' {
            self.spawn_rate = if self.spawn_rate + 5 > 100 { 100 } else { self.spawn_rate + 5 };
        } else if key == 's' {
            self.spawn_rate = if self.spawn_rate < 5 { 0 } else { self.spawn_rate - 5 };
        } else if key == 'a' {
            self.spawn_velocity.0 = if self.spawn_velocity.0 - 1 < 1 { 1 } else { self.spawn_velocity.0 - 1 };
        } else if key == 'd' {
            self.spawn_velocity.0 = if self.spawn_velocity.0 + 1 > 10 { 10 } else { self.spawn_velocity.0 + 1 };
        }
    }
}

} // verus!
