use vstd::prelude::*;
use crate::apps::{App, RunConfig};
use crate::graphics::{Graphics, PanelItem, SidePanel, decimal, labelled};
use crate::grid::{Cell, GraphicsBuf, GridView, Point, lemma_with_cell};
use crate::particles::{abs, sign};

verus! {

/// How far from the origin the world reaches on either axis: the car never
/// drives past it, so that positions on screen and in the world, computed
/// from one another, stay within `i16`.
pub const WORLD_LIMIT: i16 = 30000;

/// The fastest the car goes on either axis, in cells per step: the largest
/// velocity for which the cursor, drawn one step beyond the car's screen
/// position plus the velocity, still has an `i16` position.
pub const TOP_SPEED: i16 = i16::MAX - 15;

/// The character at column `p.0` of line `p.1` of a map.
pub open spec fn map_char(lines: Seq<Seq<char>>, p: Point) -> Option<char> {
    if 0 <= p.1 < lines.len() && 0 <= p.0 < lines[p.1 as int].len() {
        Some(lines[p.1 as int][p.0 as int])
    } else {
        None
    }
}

/// The largest column index of any character of the map, or 0.
pub open spec fn widest(lines: Seq<Seq<char>>) -> int
    decreases lines.len(),
{
    if lines.len() == 0 {
        0
    } else {
        let rest = widest(lines.drop_last());
        if lines.last().len() - 1 > rest {
            lines.last().len() - 1
        } else {
            rest
        }
    }
}

proof fn lemma_widest_nonneg(lines: Seq<Seq<char>>)
    ensures
        widest(lines) >= 0,
    decreases lines.len(),
{
    if lines.len() > 0 {
        lemma_widest_nonneg(lines.drop_last());
    }
}

/// `a` comes before `b` row by row, left to right.
pub open spec fn reads_before(a: Point, b: Point) -> bool {
    a.1 < b.1 || (a.1 == b.1 && a.0 < b.0)
}

/// The points are listed in reading order, each once.
pub open spec fn in_reading_order(s: Seq<Point>) -> bool {
    forall|i: int, j: int| 0 <= i < j < s.len() ==> reads_before(#[trigger] s[i], #[trigger] s[j])
}

/// The map has exactly one 'o', where the car starts.
pub open spec fn has_one_car(lines: Seq<Seq<char>>) -> bool {
    &&& exists|p: Point| map_char(lines, p) == Some('o')
    &&& forall|p: Point, q: Point|
        map_char(lines, p) == Some('o') && map_char(lines, q) == Some('o') ==> p == q
}

/// `v` clamped to `[lo, hi]`.
pub open spec fn clamp(v: int, lo: int, hi: int) -> int {
    if v < lo {
        lo
    } else if v > hi {
        hi
    } else {
        v
    }
}

/// The track: where the car is, and the obstacles and the grass.
pub struct World {
    pub dimensions: (u16, u16),
    pub car: Point,
    pub obstacles: Vec<Point>,
    pub grass: Vec<Point>,
}

/// `s.push(v)` holds what `s` holds and `v`.
proof fn lemma_push_contains(s: Seq<Point>, v: Point)
    ensures
        forall|q: Point| #[trigger] s.push(v).contains(q) <==> (s.contains(q) || q == v),
{
    assert forall|q: Point| #[trigger] s.push(v).contains(q) <==> (s.contains(q) || q == v) by {
        if s.push(v).contains(q) {
            let k = choose|k: int| 0 <= k < s.push(v).len() && s.push(v)[k] == q;
            if k < s.len() {
                assert(s[k] == q);
            }
        }
        if s.contains(q) {
            let k = choose|k: int| 0 <= k < s.len() && s[k] == q;
            assert(s.push(v)[k] == q);
        }
        if q == v {
            assert(s.push(v)[s.len() as int] == q);
        }
    }
}

/// Reads a map, one line per row: 'x' is an obstacle, '.' is grass and 'o'
/// is the car; anything else is open road. `None` unless there is exactly
/// one car.
pub fn parse_map(lines: &Vec<Vec<char>>) -> (r: Option<World>)
    requires
        lines@.len() < WORLD_LIMIT,
        forall|i: int| 0 <= i < lines@.len() ==> #[trigger] lines@[i]@.len() < WORLD_LIMIT,
    ensures
        r is Some <==> has_one_car(lines@.map_values(|l: Vec<char>| l@)),
        r matches Some(w) ==> {
            let m = lines@.map_values(|l: Vec<char>| l@);
            &&& map_char(m, w.car) == Some('o')
            &&& forall|p: Point| #[trigger] w.obstacles@.contains(p) <==> map_char(m, p) == Some('x')
            &&& forall|p: Point| #[trigger] w.grass@.contains(p) <==> map_char(m, p) == Some('.')
            &&& in_reading_order(w.obstacles@)
            &&& in_reading_order(w.grass@)
            &&& w.dimensions.0 == widest(m)
            &&& w.dimensions.1 == m.len() - 1
        },
{
    let ghost m = lines@.map_values(|l: Vec<char>| l@);
    let mut car: Option<Point> = None;
    let mut obstacles: Vec<Point> = Vec::new();
    let mut grass: Vec<Point> = Vec::new();
    let mut max_x: i16 = 0;
    let mut y: usize = 0;
    while y < lines.len()
        invariant
            m == lines@.map_values(|l: Vec<char>| l@),
            lines@.len() < WORLD_LIMIT,
            forall|i: int| 0 <= i < lines@.len() ==> #[trigger] lines@[i]@.len() < WORLD_LIMIT,
            y <= lines@.len(),
            max_x == widest(m.subrange(0, y as int)),
            forall|p: Point| #[trigger] obstacles@.contains(p) <==> (map_char(m, p) == Some('x') && p.1 < y),
            forall|p: Point| #[trigger] grass@.contains(p) <==> (map_char(m, p) == Some('.') && p.1 < y),
            in_reading_order(obstacles@),
            in_reading_order(grass@),
            car is None <==> forall|p: Point| p.1 < y ==> map_char(m, p) != Some('o'),
            car matches Some(c) ==> map_char(m, c) == Some('o') && forall|p: Point|
                p.1 < y && map_char(m, p) == Some('o') ==> p == c,
        decreases lines@.len() - y,
    {
        let line = &lines[y];
        assert(line@ == m[y as int]);
        let mut x: usize = 0;
        let ghost max_before: int = max_x as int;
        while x < line.len()
            invariant
                m == lines@.map_values(|l: Vec<char>| l@),
                line@ == m[y as int],
                y < lines@.len() < WORLD_LIMIT,
                line@.len() < WORLD_LIMIT,
                x <= line@.len(),
                max_before == widest(m.subrange(0, y as int)),
                max_x == (if x == 0 { max_before as int } else if x - 1 > max_before { x - 1 } else { max_before as int }),
                forall|p: Point| #[trigger] obstacles@.contains(p) <==> (map_char(m, p) == Some('x') && (p.1 < y || (p.1 == y && p.0 < x))),
                forall|p: Point| #[trigger] grass@.contains(p) <==> (map_char(m, p) == Some('.') && (p.1 < y || (p.1 == y && p.0 < x))),
                in_reading_order(obstacles@),
                in_reading_order(grass@),
                car is None <==> forall|p: Point| (p.1 < y || (p.1 == y && p.0 < x)) ==> map_char(m, p) != Some('o'),
                car matches Some(c) ==> map_char(m, c) == Some('o') && forall|p: Point|
                    (p.1 < y || (p.1 == y && p.0 < x)) && map_char(m, p) == Some('o') ==> p == c,
            decreases line@.len() - x,
        {
            let ch = line[x];
            let p: Point = (x as i16, y as i16);
            assert(map_char(m, p) == Some(ch));
            let ghost obstacles_before = obstacles@;
            let ghost grass_before = grass@;
            if ch == 'x' {
                obstacles.push(p);
            } else if ch == 'o' {
                if car.is_some() {
                    proof {
                        let c = car->Some_0;
                        assert(map_char(m, c) == Some('o') && map_char(m, p) == Some('o') && c != p);
                        assert(!has_one_car(m));
                    }
                    return None;
                }
                car = Some(p);
            } else if ch == '.' {
                grass.push(p);
            }
            proof {
                assert forall|i: int, j: int| 0 <= i < j < obstacles@.len() implies reads_before(
                    #[trigger] obstacles@[i],
                    #[trigger] obstacles@[j],
                ) by {
                    if j == obstacles_before.len() {
                        assert(obstacles_before.contains(obstacles_before[i]));
                    }
                }
                assert forall|i: int, j: int| 0 <= i < j < grass@.len() implies reads_before(
                    #[trigger] grass@[i],
                    #[trigger] grass@[j],
                ) by {
                    if j == grass_before.len() {
                        assert(grass_before.contains(grass_before[i]));
                    }
                }
                lemma_push_contains(obstacles_before, p);
                lemma_push_contains(grass_before, p);
                assert forall|q: Point| #[trigger] obstacles@.contains(q) <==> (map_char(m, q) == Some('x') && (q.1 < y || (q.1 == y && q.0 < x + 1))) by {
                    assert(obstacles_before.contains(q) <==> (map_char(m, q) == Some('x') && (q.1 < y || (q.1 == y && q.0 < x))));
                }
                assert forall|q: Point| #[trigger] grass@.contains(q) <==> (map_char(m, q) == Some('.') && (q.1 < y || (q.1 == y && q.0 < x + 1))) by {
                    assert(grass_before.contains(q) <==> (map_char(m, q) == Some('.') && (q.1 < y || (q.1 == y && q.0 < x))));
                }
            }
            if x as i16 > max_x {
                max_x = x as i16;
            }
            x = x + 1;
        }
        proof {
            let sub = m.subrange(0, y + 1);
            assert(sub.drop_last() =~= m.subrange(0, y as int));
            assert(sub.last() == m[y as int]);
        }
        y = y + 1;
    }
    assert(m.subrange(0, y as int) =~= m);
    proof {
        lemma_widest_nonneg(m);
    }
    match car {
        Some(c) => {
            assert(has_one_car(m));
            Some(World { car: c, obstacles, grass, dimensions: (max_x as u16, (y as i16 - 1) as u16) })
        },
        None => {
            proof {
                assert forall|p: Point| map_char(m, p) != Some('o') by {
                    if map_char(m, p) == Some('o') {
                        assert(p.1 < y);
                    }
                }
            }
            None
        },
    }
}

/// Where the car ends when it drives from `(x, y)` towards `(xd, yd)`, one
/// cell at a time along the axis with the longer way to go, and whether it
/// hit an obstacle (the car stops on the obstacle it hits).
pub open spec fn drive_to(obstacles: Seq<Point>, x: int, y: int, xd: int, yd: int) -> (int, int, bool)
    decreases abs(xd - x) + abs(yd - y),
{
    if x == xd && y == yd {
        (x, y, false)
    } else {
        let n = if abs(xd - x) > abs(yd - y) {
            (x + sign(xd - x), y)
        } else {
            (x, y + sign(yd - y))
        };
        if obstacles.contains((n.0 as i16, n.1 as i16)) {
            (n.0, n.1, true)
        } else {
            drive_to(obstacles, n.0, n.1, xd, yd)
        }
    }
}

/// The steering after `key`: WASD move it one step up, left, down or right,
/// each part held in `[-1, 1]`.
pub open spec fn steer(d: (i16, i16), key: char) -> (i16, i16) {
    if key == 'w' {
        (d.0, if d.1 - 1 < -1 { -1i16 } else { (d.1 - 1) as i16 })
    } else if key == 'a' {
        (if d.0 - 1 < -1 { -1i16 } else { (d.0 - 1) as i16 }, d.1)
    } else if key == 's' {
        (d.0, if d.1 + 1 > 1 { 1i16 } else { (d.1 + 1) as i16 })
    } else if key == 'd' {
        (if d.0 + 1 > 1 { 1i16 } else { (d.0 + 1) as i16 }, d.1)
    } else {
        d
    }
}

/// The blinking marker that shows where the car is heading.
pub struct Cursor {
    pub pos_on_screen: Point,
    pub timer: u32,
    /// The steering, each part in `[-1, 1]`.
    pub direction: (i16, i16),
}

impl Cursor {
    pub fn new(pos_on_screen: Point) -> (r: Self)
        ensures
            r.pos_on_screen == pos_on_screen,
            r.timer == 0,
            r.direction == (0i16, 0i16),
    {
        Self { pos_on_screen, timer: 0, direction: (0, 0) }
    }

    /// Counts the blink timer round from 0 to 9.
    pub fn update(&mut self)
        requires
            old(self).timer < 10,
        ensures
            final(self).timer == (old(self).timer + 1) % 10,
            final(self).pos_on_screen == old(self).pos_on_screen,
            final(self).direction == old(self).direction,
    {
        self.timer = if self.timer >= 9 { 0 } else { self.timer + 1 };
    }

    /// Steers with WASD, each part of the steering held in `[-1, 1]`.
    pub fn handle_pressed_key(&mut self, key: char)
        requires
            -1 <= old(self).direction.0 <= 1,
            -1 <= old(self).direction.1 <= 1,
        ensures
            final(self).direction == steer(old(self).direction, key),
            final(self).timer == old(self).timer,
            final(self).pos_on_screen == old(self).pos_on_screen,
    {
        if key == 'w' {
            self.direction.1 = if self.direction.1 - 1 < -1 { -1 } else { self.direction.1 - 1 };
        } else if key == 'a' {
            self.direction.0 = if self.direction.0 - 1 < -1 { -1 } else { self.direction.0 - 1 };
        } else if key == 's' {
            self.direction.1 = if self.direction.1 + 1 > 1 { 1 } else { self.direction.1 + 1 };
        } else if key == 'd' {
            self.direction.0 = if self.direction.0 + 1 > 1 { 1 } else { self.direction.0 + 1 };
        }
    }

    /// Paints the marker one step from its position along the steering,
    /// during the first six ticks of each ten, where that cell is on screen.
    pub fn draw(&self, buf: &mut GraphicsBuf)
        requires
            old(buf).wf(),
            -(i16::MAX - 1) <= self.pos_on_screen.0 <= i16::MAX - 1,
            -(i16::MAX - 1) <= self.pos_on_screen.1 <= i16::MAX - 1,
            -1 <= self.direction.0 <= 1,
            -1 <= self.direction.1 <= 1,
        ensures
            final(buf).wf(),
            ({
                let at = (self.pos_on_screen.0 + self.direction.0, self.pos_on_screen.1 + self.direction.1);
                final(buf)@ == if self.timer < 6 {
                    old(buf)@.with_cell(at.0, at.1, Cell::Colored((200, 250, 200)))
                } else {
                    old(buf)@
                }
            }),
    {
        if self.timer < 6 {
            let at = (self.pos_on_screen.0 + self.direction.0, self.pos_on_screen.1 + self.direction.1);
            if buf.get(at).is_some() {
                buf.set(at, Cell::Colored((200, 250, 200)));
            }
        }
    }
}

/// A top-down race: steer the car round the track without hitting an
/// obstacle.
pub struct Race {
    graphics: Graphics,
    pos_on_screen: Point,
    crashed: bool,
    velocity: (i16, i16),
    world: World,
    cursor: Cursor,
    timer: u32,
    elapsed_time: u32,
}

/// The size of the minimap for a world of dimensions `d`: eight cells along
/// the longer side, the other side in proportion.
pub open spec fn minimap_size(d: (u16, u16)) -> (int, int) {
    if d.0 > d.1 {
        (8, (8 * d.1) / (d.0 as int))
    } else {
        ((8 * d.0) / (d.1 as int), 8)
    }
}

/// Whether minimap cell `(x, y)` of a `bw` by `bh` minimap covers the car.
pub open spec fn minimap_shows_car(d: (u16, u16), car: Point, bw: int, bh: int, x: int, y: int) -> bool {
    &&& car.0 >= (d.0 * x) / bw
    &&& car.0 <= (d.0 * (x + 1)) / bw
    &&& car.1 >= (d.1 * y) / bh
    &&& car.1 <= (d.1 * (y + 1)) / bh
}

/// The screen position of world cell `p` when the car, at `car` in the
/// world, is shown at `(14, 14)`.
pub open spec fn screen_of(car: Point, p: Point) -> (int, int) {
    (p.0 - car.0 + 14, p.1 - car.1 + 14)
}

/// The world cell shown at screen position `(sx, sy)`.
pub open spec fn world_of(car: Point, sx: int, sy: int) -> Point {
    ((sx - 14 + car.0) as i16, (sy - 14 + car.1) as i16)
}

/// What the screen shows at `(sx, sy)`: the cursor (unless crashed, during
/// the first six ticks of ten), the car in the middle, then grass, then
/// obstacles, else open road.
pub open spec fn screen_cell(
    obstacles: Seq<Point>,
    grass: Seq<Point>,
    car: Point,
    crashed: bool,
    cursor: Cursor,
    sx: int,
    sy: int,
) -> Cell {
    let w = world_of(car, sx, sy);
    if !crashed && cursor.timer < 6 && sx == cursor.pos_on_screen.0 + cursor.direction.0 && sy
        == cursor.pos_on_screen.1 + cursor.direction.1 {
        Cell::Colored((200, 250, 200))
    } else if sx == 14 && sy == 14 {
        if crashed {
            Cell::Colored((250, 50, 50))
        } else {
            Cell::Colored((250, 250, 250))
        }
    } else if grass.contains(w) {
        Cell::Colored((100, 150, 100))
    } else if obstacles.contains(w) {
        Cell::Colored((100, 100, 150))
    } else {
        Cell::Blank
    }
}

/// Every eighth frame, unless crashed: a second passes, the steering is
/// added to the velocity (held within the top speed) and drops to zero, the
/// cursor moves to where the velocity leads from the car, and the car drives
/// (see `drive_to`). Otherwise only the frame is counted.
pub open spec fn ticked(before: Race, after: Race) -> bool {
    let t = (before.ticks() + 1) % 8;
    let drives = t == 0 && !before.has_crashed();
    let car = before.world_car();
    let d = before.cursor_of().direction;
    let v = (
        clamp(before.speed().0 + d.0, -TOP_SPEED as int, TOP_SPEED as int) as i16,
        clamp(before.speed().1 + d.1, -TOP_SPEED as int, TOP_SPEED as int) as i16,
    );
    let xd = clamp(car.0 + v.0, -WORLD_LIMIT as int, WORLD_LIMIT as int);
    let yd = clamp(car.1 + v.1, -WORLD_LIMIT as int, WORLD_LIMIT as int);
    let r = drive_to(before.obstacles(), car.0 as int, car.1 as int, xd, yd);
    &&& after.ticks() == t
    &&& after.obstacles() == before.obstacles()
    &&& after.grass() == before.grass()
    &&& after.world_size() == before.world_size()
    &&& !drives ==> after.status() == before.status()
    &&& drives ==> after.status() == Some("Time: "@ + decimal(after.seconds() as nat))
    &&& !drives ==> {
        &&& after.world_car() == car
        &&& after.has_crashed() == before.has_crashed()
        &&& after.speed() == before.speed()
        &&& after.cursor_of().direction == before.cursor_of().direction
        &&& after.cursor_of().pos_on_screen == before.cursor_of().pos_on_screen
        &&& after.seconds() == before.seconds()
    }
    &&& drives ==> {
        &&& after.speed() == v
        &&& after.cursor_of().direction == (0i16, 0i16)
        &&& after.cursor_of().pos_on_screen == ((14 + v.0) as i16, (14 + v.1) as i16)
        &&& after.world_car() == (r.0 as i16, r.1 as i16)
        &&& after.has_crashed() == r.2
        &&& after.seconds() == if before.seconds() < u32::MAX {
            before.seconds() + 1
        } else {
            before.seconds()
        }
    }
}

/// The screen shows the world around the car (see `screen_cell`) and the
/// minimap marks where the car is.
pub open spec fn drawn(r: Race) -> bool {
    &&& forall|sx: int, sy: int|
        0 <= sx < 30 && 0 <= sy < 30 ==> #[trigger] r.screen().cell(sx, sy) == Some(
            screen_cell(r.obstacles(), r.grass(), r.world_car(), r.has_crashed(), r.cursor_of(), sx, sy),
        )
    &&& forall|x: int, y: int|
        r.minimap().in_bounds(x, y) ==> #[trigger] r.minimap().cell(x, y) == Some(
            if minimap_shows_car(r.world_size(), r.world_car(), r.minimap().width, r.minimap().height, x, y) {
                Cell::Colored((255, 255, 255))
            } else {
                Cell::Colored((150, 150, 150))
            },
        )
}

/// Everything but the steering is the same.
pub open spec fn same_but_steering(a: Race, b: Race) -> bool {
    &&& b.world_car() == a.world_car()
    &&& b.obstacles() == a.obstacles()
    &&& b.grass() == a.grass()
    &&& b.world_size() == a.world_size()
    &&& b.has_crashed() == a.has_crashed()
    &&& b.speed() == a.speed()
    &&& b.seconds() == a.seconds()
    &&& b.ticks() == a.ticks()
    &&& b.screen() == a.screen()
    &&& b.minimap() == a.minimap()
    &&& b.status() == a.status()
    &&& b.cursor_of().timer == a.cursor_of().timer
    &&& b.cursor_of().pos_on_screen == a.cursor_of().pos_on_screen
}

/// One frame: the tick (see `ticked`), then the cursor blinks on, then the
/// screen is drawn anew.
pub open spec fn raced(before: Race, after: Race) -> bool {
    &&& ticked(before, after)
    &&& after.cursor_of().timer == (before.cursor_of().timer + 1) % 10
    &&& drawn(after)
}

impl Race {
    pub closed spec fn world_car(&self) -> Point {
        self.world.car
    }

    /// The width and height of the world.
    pub closed spec fn world_size(&self) -> (u16, u16) {
        self.world.dimensions
    }

    /// The minimap in the side panel.
    pub closed spec fn minimap(&self) -> GridView {
        self.graphics.side_panel->Some_0.items@[2]->GraphicsItem_buf@
    }

    pub closed spec fn grass(&self) -> Seq<Point> {
        self.world.grass@
    }

    /// The text of the first item of the side panel: the time.
    pub closed spec fn status(&self) -> Option<Seq<char>> {
        match self.graphics.side_panel {
            Some(p) => match p.items@[0] {
                PanelItem::TextItem { text } => Some(text@),
                _ => None,
            },
            None => None,
        }
    }

    /// The cursor.
    pub closed spec fn cursor_of(&self) -> Cursor {
        self.cursor
    }

    /// What the main buffer shows.
    pub closed spec fn screen(&self) -> GridView {
        self.graphics.buf@
    }

    pub closed spec fn obstacles(&self) -> Seq<Point> {
        self.world.obstacles@
    }

    pub closed spec fn has_crashed(&self) -> bool {
        self.crashed
    }

    pub closed spec fn speed(&self) -> (i16, i16) {
        self.velocity
    }

    pub closed spec fn steering(&self) -> (i16, i16) {
        self.cursor.direction
    }

    pub closed spec fn seconds(&self) -> int {
        self.elapsed_time as int
    }

    pub closed spec fn ticks(&self) -> int {
        self.timer as int
    }

    pub closed spec fn layout_ok(&self) -> bool {
        &&& self.graphics.buf.wf()
        &&& self.graphics.buf@.width == 30
        &&& self.graphics.buf@.height == 30
        &&& self.pos_on_screen == (14i16, 14i16)
        &&& self.graphics.side_panel matches Some(p) && p.items@.len() == 4 && (p.items@[2] is GraphicsItem && p.items@[2]->GraphicsItem_buf.wf())
        &&& -(i16::MAX - 1) <= self.cursor.pos_on_screen.0 <= i16::MAX - 1
        &&& -(i16::MAX - 1) <= self.cursor.pos_on_screen.1 <= i16::MAX - 1
        &&& self.world.dimensions.0 > 0 || self.world.dimensions.1 > 0
        &&& self.cursor.timer < 10
    }

    pub open spec fn well_formed(&self) -> bool {
        &&& self.layout_ok()
        &&& self.screen().wf()
        &&& self.screen().width == 30
        &&& self.screen().height == 30
        &&& -WORLD_LIMIT <= self.world_car().0 <= WORLD_LIMIT
        &&& -WORLD_LIMIT <= self.world_car().1 <= WORLD_LIMIT
        &&& -TOP_SPEED <= self.speed().0 <= TOP_SPEED
        &&& -TOP_SPEED <= self.speed().1 <= TOP_SPEED
        &&& -1 <= self.steering().0 <= 1
        &&& -1 <= self.steering().1 <= 1
        &&& self.ticks() < 8
    }

    /// A race on the map given line by line; `None` unless the map has
    /// exactly one car and spans more than one cell.
    pub fn new(map: &Vec<Vec<char>>) -> (r: Option<(Self, RunConfig)>)
        requires
            map@.len() < WORLD_LIMIT,
            forall|i: int| 0 <= i < map@.len() ==> #[trigger] map@[i]@.len() < WORLD_LIMIT,
        ensures
            r is Some ==> r->Some_0.0.well_formed() && !r->Some_0.0.has_crashed() && r->Some_0.1.frame_rate == 30,
            r is Some ==> {
                let g = r->Some_0.0;
                &&& g.speed() == (0i16, 0i16)
                &&& g.seconds() == 0
                &&& g.ticks() == 0
                &&& g.status() == Some("Time: "@ + decimal(0))
                &&& g.cursor_of() == (Cursor { pos_on_screen: (14i16, 14i16), timer: 0, direction: (0i16, 0i16) })
                &&& map_char(map@.map_values(|l: Vec<char>| l@), g.world_car()) == Some('o')
                &&& drawn(g)
            },
            r is Some ==> (r->Some_0.0.minimap().width, r->Some_0.0.minimap().height) == minimap_size(
                r->Some_0.0.world_size(),
            ),
            has_one_car(map@.map_values(|l: Vec<char>| l@)) && (widest(map@.map_values(|l: Vec<char>| l@)) > 0 || map@.len() > 1) ==> r is Some,
            !has_one_car(map@.map_values(|l: Vec<char>| l@)) ==> r is None,
    {
        let world = match parse_map(map) {
            Some(w) => w,
            None => {
                return None;
            },
        };
        if world.dimensions.0 == 0 && world.dimensions.1 == 0 {
            return None;
        }
        let buf = GraphicsBuf::new((30, 30));
        let pos_on_screen: Point = (14, 14);
        let d0 = world.dimensions.0 as u32;
        let d1 = world.dimensions.1 as u32;
        let minimap_size: (u8, u8) = if d0 > d1 {
            (8, (8 * d1 / d0) as u8)
        } else {
            ((8 * d0 / d1) as u8, 8)
        };
        proof {
            if d0 > d1 {
                assert((8 * (d1 as int)) / (d0 as int) <= 8) by (nonlinear_arith)
                    requires
                        d1 < d0,
                ;
            } else {
                assert((8 * (d0 as int)) / (d1 as int) <= 8) by (nonlinear_arith)
                    requires
                        d0 <= d1,
                        0 < d1,
                ;
            }
        }
        let minimap_buf = GraphicsBuf::new(minimap_size);
        let elapsed_time: u32 = 0;
        let graphics = Graphics::new(
            "Race".to_string(),
            Some(
                SidePanel {
                    items: vec![
                        PanelItem::TextItem { text: Self::time_text(elapsed_time) },
                        PanelItem::TextItem { text: "Minimap:".to_string() },
                        PanelItem::GraphicsItem { buf: minimap_buf },
                        PanelItem::TextItem {
                            text: "Use WASD to control the car.\nThe blinking dot indicates where you are heading.".to_string(),
                        },
                    ],
                },
            ),
            buf,
        );
        let mut this = Self {
            graphics,
            pos_on_screen,
            world,
            crashed: false,
            velocity: (0, 0),
            cursor: Cursor::new(pos_on_screen),
            timer: 0,
            elapsed_time,
        };
        assert(this.graphics.side_panel->Some_0.items@[2] == PanelItem::GraphicsItem { buf: minimap_buf });
        this.update_graphics();
        Some((this, RunConfig { frame_rate: 30 }))
    }

    /// "Time: " and the seconds.
    pub fn time_text(elapsed_time: u32) -> (r: String)
        ensures
            r@ == "Time: "@ + decimal(elapsed_time as nat),
    {
        labelled("Time: ", elapsed_time)
    }

    /// Paints `cell` at the screen position of `world_pos`, if that is on
    /// screen.
    fn draw_world_cell(&mut self, world_pos: Point, cell: Cell)
        requires
            old(self).layout_ok(),
            -WORLD_LIMIT <= old(self).world.car.0 <= WORLD_LIMIT,
            -WORLD_LIMIT <= old(self).world.car.1 <= WORLD_LIMIT,
        ensures
            final(self).layout_ok(),
            ({
                let s = screen_of(old(self).world.car, world_pos);
                final(self).graphics.buf@ == if 0 <= s.0 < 30 && 0 <= s.1 < 30 {
                    old(self).graphics.buf@.with_cell(s.0, s.1, cell)
                } else {
                    old(self).graphics.buf@
                }
            }),
            final(self).world == old(self).world,
            final(self).crashed == old(self).crashed,
            final(self).velocity == old(self).velocity,
            final(self).cursor == old(self).cursor,
            final(self).timer == old(self).timer,
            final(self).elapsed_time == old(self).elapsed_time,
            final(self).graphics.side_panel == old(self).graphics.side_panel,
    {
        let sx: i32 = world_pos.0 as i32 - self.world.car.0 as i32 + self.pos_on_screen.0 as i32;
        let sy: i32 = world_pos.1 as i32 - self.world.car.1 as i32 + self.pos_on_screen.1 as i32;
        if sx >= 0 && sx < 30 && sy >= 0 && sy < 30 {
            self.graphics.buf.set((sx as i16, sy as i16), cell);
        }
    }

    /// Redraws the screen around the car, the minimap and the cursor: grass
    /// over obstacles over open road, then the car in the middle, then the
    /// cursor unless the car has crashed.
    fn update_graphics(&mut self)
        requires
            old(self).well_formed(),
        ensures
            final(self).well_formed(),
            final(self).world == old(self).world,
            final(self).crashed == old(self).crashed,
            final(self).velocity == old(self).velocity,
            final(self).cursor == old(self).cursor,
            final(self).timer == old(self).timer,
            final(self).elapsed_time == old(self).elapsed_time,
            final(self).minimap().width == old(self).minimap().width,
            final(self).minimap().height == old(self).minimap().height,
            final(self).status() == old(self).status(),
            drawn(*final(self)),
            forall|sx: int, sy: int|
                0 <= sx < 30 && 0 <= sy < 30 ==> #[trigger] final(self).graphics.buf@.cell(sx, sy) == Some(
                    screen_cell(
                        old(self).world.obstacles@,
                        old(self).world.grass@,
                        old(self).world.car,
                        old(self).crashed,
                        old(self).cursor,
                        sx,
                        sy,
                    ),
                ),
    {
        let ghost car = self.world.car;
        let ghost obstacles = self.world.obstacles@;
        let ghost grass = self.world.grass@;
        let n: usize = 900;
        let mut i: usize = 0;
        while i < n
            invariant
                self.well_formed(),
                self.world == old(self).world,
                self.crashed == old(self).crashed,
                self.velocity == old(self).velocity,
                self.cursor == old(self).cursor,
                self.timer == old(self).timer,
                self.elapsed_time == old(self).elapsed_time,
                self.graphics.side_panel == old(self).graphics.side_panel,
                n == 900,
                i <= n,
                forall|k: int| 0 <= k < i ==> self.graphics.buf@.cells[k] == Cell::Blank,
            decreases n - i,
        {
            self.graphics.buf.set_by_index(i, Cell::Blank);
            i = i + 1;
        }
        let mut k: usize = 0;
        while k < self.world.obstacles.len()
            invariant
                self.well_formed(),
                self.world == old(self).world,
                self.crashed == old(self).crashed,
                self.velocity == old(self).velocity,
                self.cursor == old(self).cursor,
                self.timer == old(self).timer,
                self.elapsed_time == old(self).elapsed_time,
                car == self.world.car,
                obstacles == self.world.obstacles@,
                self.graphics.side_panel == old(self).graphics.side_panel,
                k <= obstacles.len(),
                forall|sx: int, sy: int|
                    0 <= sx < 30 && 0 <= sy < 30 ==> #[trigger] self.graphics.buf@.cell(sx, sy) == Some(
                        if obstacles.subrange(0, k as int).contains(world_of(car, sx, sy)) {
                            Cell::Colored((100, 100, 150))
                        } else {
                            Cell::Blank
                        },
                    ),
            decreases self.world.obstacles@.len() - k,
        {
            let p = self.world.obstacles[k];
            let ghost before = self.graphics.buf@;
            self.draw_world_cell(p, Cell::Colored((100, 100, 150)));
            proof {
                let s = screen_of(car, p);
                lemma_with_cell(before, s.0, s.1, Cell::Colored((100, 100, 150)));
                lemma_push_contains(obstacles.subrange(0, k as int), p);
                assert(obstacles.subrange(0, k + 1) =~= obstacles.subrange(0, k as int).push(p));
                assert forall|sx: int, sy: int| 0 <= sx < 30 && 0 <= sy < 30 implies (world_of(car, sx, sy) == p
                    <==> (s.0 == sx && s.1 == sy)) by {
                }
            }
            k = k + 1;
        }
        assert(obstacles.subrange(0, obstacles.len() as int) =~= obstacles);
        assert(grass.subrange(0, 0) =~= Seq::<Point>::empty());
        let mut k: usize = 0;
        while k < self.world.grass.len()
            invariant
                self.well_formed(),
                self.world == old(self).world,
                self.crashed == old(self).crashed,
                self.velocity == old(self).velocity,
                self.cursor == old(self).cursor,
                self.timer == old(self).timer,
                self.elapsed_time == old(self).elapsed_time,
                car == self.world.car,
                obstacles == self.world.obstacles@,
                grass == self.world.grass@,
                self.graphics.side_panel == old(self).graphics.side_panel,
                k <= grass.len(),
                forall|sx: int, sy: int|
                    0 <= sx < 30 && 0 <= sy < 30 ==> #[trigger] self.graphics.buf@.cell(sx, sy) == Some(
                        if grass.subrange(0, k as int).contains(world_of(car, sx, sy)) {
                            Cell::Colored((100, 150, 100))
                        } else if obstacles.contains(world_of(car, sx, sy)) {
                            Cell::Colored((100, 100, 150))
                        } else {
                            Cell::Blank
                        },
                    ),
            decreases self.world.grass@.len() - k,
        {
            let p = self.world.grass[k];
            let ghost before = self.graphics.buf@;
            self.draw_world_cell(p, Cell::Colored((100, 150, 100)));
            proof {
                let s = screen_of(car, p);
                lemma_with_cell(before, s.0, s.1, Cell::Colored((100, 150, 100)));
                lemma_push_contains(grass.subrange(0, k as int), p);
                assert(grass.subrange(0, k + 1) =~= grass.subrange(0, k as int).push(p));
                assert forall|sx: int, sy: int| 0 <= sx < 30 && 0 <= sy < 30 implies (world_of(car, sx, sy) == p
                    <==> (s.0 == sx && s.1 == sy)) by {
                }
            }
            k = k + 1;
        }
        assert(grass.subrange(0, grass.len() as int) =~= grass);
        let car_cell = if self.crashed {
            Cell::Colored((250, 50, 50))
        } else {
            Cell::Colored((250, 250, 250))
        };
        proof {
            lemma_with_cell(self.graphics.buf@, 14, 14, car_cell);
        }
        self.graphics.buf.set(self.pos_on_screen, car_cell);
        self.draw_minimap();
        if !self.crashed {
            let ghost before = self.graphics.buf@;
            self.cursor.draw(&mut self.graphics.buf);
            proof {
                let at = (self.cursor.pos_on_screen.0 + self.cursor.direction.0, self.cursor.pos_on_screen.1 + self.cursor.direction.1);
                lemma_with_cell(before, at.0, at.1, Cell::Colored((200, 250, 200)));
            }
        }
    }

    /// Marks in white the minimap cells whose part of the world holds the
    /// car, the others in grey.
    fn draw_minimap(&mut self)
        requires
            old(self).layout_ok(),
        ensures
            final(self).layout_ok(),
            final(self).graphics.buf == old(self).graphics.buf,
            final(self).world == old(self).world,
            final(self).crashed == old(self).crashed,
            final(self).velocity == old(self).velocity,
            final(self).cursor == old(self).cursor,
            final(self).timer == old(self).timer,
            final(self).elapsed_time == old(self).elapsed_time,
            final(self).minimap().width == old(self).minimap().width,
            final(self).minimap().height == old(self).minimap().height,
            final(self).status() == old(self).status(),
            ({
                let m = final(self).graphics.side_panel->Some_0.items@[2]->GraphicsItem_buf@;
                forall|x: int, y: int|
                    m.in_bounds(x, y) ==> #[trigger] m.cell(x, y) == Some(
                        if minimap_shows_car(old(self).world.dimensions, old(self).world.car, m.width, m.height, x, y) {
                            Cell::Colored((255, 255, 255))
                        } else {
                            Cell::Colored((150, 150, 150))
                        },
                    )
            }),
    {
        let dims = self.world.dimensions;
        let car = self.world.car;
        match &mut self.graphics.side_panel {
            Some(panel) => {
                let buf = panel.unwrap_graphics_item_mut(2);
                let buf_w = buf.dimensions().0 as u32;
                let buf_h = buf.dimensions().1 as u32;
                let ghost g0 = buf@;
                let mut y: u32 = 0;
                while y < buf_h
                    invariant
                        buf.wf(),
                        buf@.width == buf_w,
                        buf@.height == buf_h,
                        buf_w <= 255,
                        buf_h <= 255,
                        y <= buf_h,
                        forall|i: int, j: int|
                            buf@.in_bounds(i, j) && j < y ==> #[trigger] buf@.cell(i, j) == Some(
                                if minimap_shows_car(dims, car, buf_w as int, buf_h as int, i, j) {
                                    Cell::Colored((255, 255, 255))
                                } else {
                                    Cell::Colored((150, 150, 150))
                                },
                            ),
                    decreases buf_h - y,
                {
                    let mut x: u32 = 0;
                    while x < buf_w
                        invariant
                            buf.wf(),
                            buf@.width == buf_w,
                            buf@.height == buf_h,
                            buf_w <= 255,
                            buf_h <= 255,
                            y < buf_h,
                            x <= buf_w,
                            forall|i: int, j: int|
                                buf@.in_bounds(i, j) && (j < y || (j == y && i < x)) ==> #[trigger] buf@.cell(i, j) == Some(
                                    if minimap_shows_car(dims, car, buf_w as int, buf_h as int, i, j) {
                                        Cell::Colored((255, 255, 255))
                                    } else {
                                        Cell::Colored((150, 150, 150))
                                    },
                                ),
                        decreases buf_w - x,
                    {
                        proof {
                            assert(dims.0 * (x + 1) <= 65535 * 256) by (nonlinear_arith)
                                requires
                                    dims.0 <= 65535,
                                    x < 255,
                            ;
                            assert(dims.1 * (y + 1) <= 65535 * 256) by (nonlinear_arith)
                                requires
                                    dims.1 <= 65535,
                                    y < 255,
                            ;
                            assert(dims.0 * x <= dims.0 * (x + 1)) by (nonlinear_arith);
                            assert(dims.1 * y <= dims.1 * (y + 1)) by (nonlinear_arith);
                        }
                        let lo_x = (dims.0 as u32 * x / buf_w) as i32;
                        let hi_x = (dims.0 as u32 * (x + 1) / buf_w) as i32;
                        let lo_y = (dims.1 as u32 * y / buf_h) as i32;
                        let hi_y = (dims.1 as u32 * (y + 1) / buf_h) as i32;
                        let shows = car.0 as i32 >= lo_x && car.0 as i32 <= hi_x && car.1 as i32 >= lo_y
                            && car.1 as i32 <= hi_y;
                        let value = if shows {
                            Cell::Colored((255, 255, 255))
                        } else {
                            Cell::Colored((150, 150, 150))
                        };
                        proof {
                            lemma_with_cell(buf@, x as int, y as int, value);
                        }
                        buf.set((x as i16, y as i16), value);
                        x = x + 1;
                    }
                    y = y + 1;
                }
            },
            None => {},
        }
    }

    /// Drives the car from its place along its velocity; it stops on the
    /// first obstacle it meets, and then has crashed. The target is held
    /// within the world's limits.
    pub fn drive(&mut self)
        requires
            old(self).well_formed(),
        ensures
            final(self).well_formed(),
            ({
                let xd = clamp(old(self).world_car().0 + old(self).speed().0, -WORLD_LIMIT as int, WORLD_LIMIT as int);
                let yd = clamp(old(self).world_car().1 + old(self).speed().1, -WORLD_LIMIT as int, WORLD_LIMIT as int);
                let r = drive_to(old(self).obstacles(), old(self).world_car().0 as int, old(self).world_car().1 as int, xd, yd);
                &&& final(self).world_car() == (r.0 as i16, r.1 as i16)
                &&& final(self).has_crashed() == (old(self).has_crashed() || r.2)
            }),
            final(self).speed() == old(self).speed(),
            final(self).obstacles() == old(self).obstacles(),
            final(self).ticks() == old(self).ticks(),
            final(self).steering() == old(self).steering(),
            final(self).seconds() == old(self).seconds(),
            final(self).grass() == old(self).grass(),
            final(self).world_size() == old(self).world_size(),
            final(self).cursor_of() == old(self).cursor_of(),
            final(self).status() == old(self).status(),
    {
        let x_dst: i16 = clamp_exec(self.world.car.0 as i32 + self.velocity.0 as i32);
        let y_dst: i16 = clamp_exec(self.world.car.1 as i32 + self.velocity.1 as i32);
        let mut x0: i16 = self.world.car.0;
        let mut y0: i16 = self.world.car.1;
        let ghost obstacles = self.world.obstacles@;
        let mut hit = false;
        while !hit && (x0 != x_dst || y0 != y_dst)
            invariant
                self.well_formed(),
                self.world.obstacles@ == obstacles,
                self.world.car == old(self).world.car,
                self.crashed == old(self).crashed,
                self.velocity == old(self).velocity,
                -WORLD_LIMIT <= x0 <= WORLD_LIMIT,
                -WORLD_LIMIT <= y0 <= WORLD_LIMIT,
                -WORLD_LIMIT <= x_dst <= WORLD_LIMIT,
                -WORLD_LIMIT <= y_dst <= WORLD_LIMIT,
                x_dst == clamp(old(self).world.car.0 + old(self).velocity.0, -WORLD_LIMIT as int, WORLD_LIMIT as int),
                y_dst == clamp(old(self).world.car.1 + old(self).velocity.1, -WORLD_LIMIT as int, WORLD_LIMIT as int),
                !hit ==> drive_to(obstacles, x0 as int, y0 as int, x_dst as int, y_dst as int) == drive_to(
                    obstacles,
                    old(self).world.car.0 as int,
                    old(self).world.car.1 as int,
                    x_dst as int,
                    y_dst as int,
                ),
                hit ==> drive_to(obstacles, old(self).world.car.0 as int, old(self).world.car.1 as int, x_dst as int, y_dst as int) == (x0 as int, y0 as int, true),
            decreases abs(x_dst - x0) + abs(y_dst - y0) + (if hit { 0int } else { 1int }),
        {
            let dx: i32 = x_dst as i32 - x0 as i32;
            let dy: i32 = y_dst as i32 - y0 as i32;
            let adx: i32 = if dx < 0 { -dx } else { dx };
            let ady: i32 = if dy < 0 { -dy } else { dy };
            if adx > ady {
                x0 = if dx > 0 { x0 + 1 } else { x0 - 1 };
            } else {
                y0 = if dy > 0 { y0 + 1 } else if dy < 0 { y0 - 1 } else { y0 };
            }
            if self.is_obstacle((x0, y0)) {
                hit = true;
            }
        }
        if hit {
            self.crashed = true;
            match &mut self.graphics.side_panel {
                Some(panel) => {
                    panel.items.set(3, PanelItem::TextItem { text: "Game Over:\nYou crashed!".to_string() });
                },
                None => {},
            }
        }
        self.world.car = (x0, y0);
    }

    fn is_obstacle(&self, p: Point) -> (r: bool)
        ensures
            r == self.world.obstacles@.contains(p),
    {
        let mut i: usize = 0;
        while i < self.world.obstacles.len()
            invariant
                i <= self.world.obstacles@.len(),
                forall|k: int| 0 <= k < i ==> self.world.obstacles@[k] != p,
            decreases self.world.obstacles@.len() - i,
        {
            let q = self.world.obstacles[i];
            if q.0 == p.0 && q.1 == p.1 {
                assert(self.world.obstacles@[i as int] == p);
                return true;
            }
            i = i + 1;
        }
        false
    }

    /// Every eighth frame, unless crashed: a second passes, the steering is
    /// added to the velocity (held within the top speed), and the car drives.
    pub fn tick(&mut self)
        requires
            old(self).well_formed(),
        ensures
            final(self).well_formed(),
            ticked(*old(self), *final(self)),
            final(self).cursor_of().timer == old(self).cursor_of().timer,
    {
        self.timer = if self.timer >= 7 { 0 } else { self.timer + 1 };
        if self.timer == 0 && !self.crashed {
            if self.elapsed_time < u32::MAX {
                self.elapsed_time = self.elapsed_time + 1;
            }
            match &mut self.graphics.side_panel {
                Some(panel) => {
                    panel.items.set(0, PanelItem::TextItem { text: Self::time_text(self.elapsed_time) });
                },
                None => {},
            }
            self.velocity.0 = clamp_speed(self.velocity.0 + self.cursor.direction.0);
            self.velocity.1 = clamp_speed(self.velocity.1 + self.cursor.direction.1);
            self.cursor.pos_on_screen = (self.pos_on_screen.0 + self.velocity.0, self.pos_on_screen.1 + self.velocity.1);
            self.cursor.direction = (0, 0);
            self.drive();
        }
    }

    /// Whether the car has hit an obstacle.
    pub fn is_crashed(&self) -> (r: bool)
        ensures
            r == self.has_crashed(),
    {
        self.crashed
    }

    /// Where the car is in the world.
    pub fn car(&self) -> (r: Point)
        ensures
            r == self.world_car(),
    {
        self.world.car
    }
}

fn clamp_exec(v: i32) -> (r: i16)
    ensures
        r == clamp(v as int, -WORLD_LIMIT as int, WORLD_LIMIT as int),
{
    if v < -(WORLD_LIMIT as i32) {
        -WORLD_LIMIT
    } else if v > WORLD_LIMIT as i32 {
        WORLD_LIMIT
    } else {
        v as i16
    }
}

fn clamp_speed(v: i16) -> (r: i16)
    ensures
        r == clamp(v as int, -TOP_SPEED as int, TOP_SPEED as int),
{
    if v < -TOP_SPEED {
        -TOP_SPEED
    } else if v > TOP_SPEED {
        TOP_SPEED
    } else {
        v
    }
}

impl App for Race {
    open spec fn valid(&self) -> bool {
        self.well_formed()
    }

    fn run_frame(&mut self)
        ensures
            raced(*old(self), *final(self)),
    {
        self.tick();
        self.cursor.update();
        self.update_graphics();
    }

    fn handle_pressed_key(&mut self, key: char)
        ensures
            final(self).cursor_of().direction == steer(old(self).cursor_of().direction, key),
            same_but_steering(*old(self), *final(self)),
    {
        self.cursor.handle_pressed_key(key);
    }

    fn handle_released_key(&mut self, key: char)
        ensures
            *final(self) == *old(self),
    {
    }

    fn graphics(&self) -> (r: &Graphics)
        ensures
            r.buf@ == self.screen(),
    {
        &self.graphics
    }
}

} // verus!
