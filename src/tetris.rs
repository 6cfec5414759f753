use vstd::prelude::*;
use crate::apps::{App, RunConfig};
use crate::graphics::{Graphics, PanelItem, SidePanel, decimal, labelled};
use crate::grid::{Cell, Color, Direction, GraphicsBuf, GridView, Point, lemma_with_cell, offset, translated};
use crate::random::random_below;

verus! {

#[derive(Debug, Clone, Copy, PartialEq, Eq, Structural)]
pub enum Shape {
    I,
    O,
    T,
    S,
    Z,
    J,
    L,
}

/// A quarter turn of a piece; four turns come back to the first.
#[derive(Debug, Clone, Copy, PartialEq, Eq, Structural)]
pub enum Orientation {
    First,
    Second,
    Third,
    Fourth,
}

pub open spec fn next_orientation(o: Orientation) -> Orientation {
    match o {
        Orientation::First => Orientation::Second,
        Orientation::Second => Orientation::Third,
        Orientation::Third => Orientation::Fourth,
        Orientation::Fourth => Orientation::First,
    }
}

impl Orientation {
    pub fn rotated(&self) -> (r: Self)
        ensures
            r == next_orientation(*self),
    {
        match self {
            Orientation::First => Orientation::Second,
            Orientation::Second => Orientation::Third,
            Orientation::Third => Orientation::Fourth,
            Orientation::Fourth => Orientation::First,
        }
    }
}

/// The four cells of a shape in an orientation, relative to its origin.
pub open spec fn shape_cells(shape: Shape, o: Orientation) -> Seq<(int, int)> {
    match shape {
        Shape::I => match o {
            Orientation::First | Orientation::Third => seq![(0, 2), (1, 2), (2, 2), (3, 2)],
            _ => seq![(2, 0), (2, 1), (2, 2), (2, 3)],
        },
        Shape::O => seq![(0, 0), (1, 0), (0, 1), (1, 1)],
        Shape::T => match o {
            Orientation::First => seq![(0, 1), (1, 1), (2, 1), (1, 2)],
            Orientation::Second => seq![(0, 1), (1, 0), (1, 1), (1, 2)],
            Orientation::Third => seq![(0, 1), (1, 1), (2, 1), (1, 0)],
            Orientation::Fourth => seq![(2, 1), (1, 0), (1, 1), (1, 2)],
        },
        Shape::S => match o {
            Orientation::First | Orientation::Third => seq![(0, 2), (1, 2), (1, 1), (2, 1)],
            _ => seq![(1, 0), (1, 1), (2, 1), (2, 2)],
        },
        Shape::Z => match o {
            Orientation::First | Orientation::Third => seq![(0, 1), (1, 1), (1, 2), (2, 2)],
            _ => seq![(1, 2), (1, 1), (2, 1), (2, 0)],
        },
        Shape::J => match o {
            Orientation::First => seq![(0, 1), (1, 1), (2, 1), (2, 2)],
            Orientation::Second => seq![(0, 2), (1, 2), (1, 1), (1, 0)],
            Orientation::Third => seq![(0, 0), (0, 1), (1, 1), (2, 1)],
            Orientation::Fourth => seq![(1, 2), (1, 1), (1, 0), (2, 0)],
        },
        Shape::L => match o {
            Orientation::First => seq![(0, 2), (0, 1), (1, 1), (2, 1)],
            Orientation::Second => seq![(0, 0), (1, 0), (1, 1), (1, 2)],
            Orientation::Third => seq![(0, 1), (1, 1), (2, 1), (2, 0)],
            Orientation::Fourth => seq![(1, 0), (1, 1), (1, 2), (2, 2)],
        },
    }
}

pub open spec fn shape_color(shape: Shape) -> Color {
    match shape {
        Shape::I => (235, 50, 50),
        Shape::O => (50, 235, 50),
        Shape::T => (80, 80, 235),
        Shape::S => (170, 170, 50),
        Shape::Z => (50, 170, 170),
        Shape::J => (170, 50, 170),
        Shape::L => (200, 100, 100),
    }
}

/// Every relative cell of every shape lies in the square `[0, 3] x [0, 3]`.
proof fn lemma_shape_cells_small(shape: Shape, o: Orientation)
    ensures
        shape_cells(shape, o).len() == 4,
        forall|i: int|
            0 <= i < 4 ==> 0 <= #[trigger] shape_cells(shape, o)[i].0 <= 3 && 0
                <= shape_cells(shape, o)[i].1 <= 3,
{
}

/// A piece: a shape, turned some quarter turns, placed at an origin.
#[derive(Debug, Clone, Copy)]
pub struct Tetromino {
    pub origin: Point,
    pub orientation: Orientation,
    pub shape: Shape,
}

/// The origin is far enough from the limits of `i16` for any block and any
/// one-cell move to be computed.
pub open spec fn origin_ok(t: Tetromino) -> bool {
    -(i16::MAX - 4) <= t.origin.0 <= i16::MAX - 4 && -(i16::MAX - 4) <= t.origin.1 <= i16::MAX - 4
}

/// The cells that a piece covers.
pub open spec fn blocks_of(t: Tetromino) -> Seq<(int, int)> {
    shape_cells(t.shape, t.orientation).map_values(
        |c: (int, int)| (t.origin.0 + c.0, t.origin.1 + c.1),
    )
}

/// The cell `(x, y)` is one of the four cells `bs`.
pub open spec fn covers(bs: Seq<(int, int)>, x: int, y: int) -> bool {
    bs[0] == (x, y) || bs[1] == (x, y) || bs[2] == (x, y) || bs[3] == (x, y)
}

/// A piece of `shape` entering the board at the top.
pub open spec fn top_piece(shape: Shape) -> Tetromino {
    Tetromino {
        origin: match shape {
            Shape::I => (3i16, -2i16),
            Shape::O => (4i16, 0i16),
            _ => (4i16, -1i16),
        },
        orientation: Orientation::First,
        shape,
    }
}

/// A piece of `shape` in the preview of the next piece.
pub open spec fn hint_piece(shape: Shape) -> Tetromino {
    Tetromino {
        origin: match shape {
            Shape::I => (0i16, -2i16),
            Shape::O => (0i16, 0i16),
            _ => (0i16, -1i16),
        },
        orientation: Orientation::First,
        shape,
    }
}

/// A new piece lies within the top two rows and the columns three to seven.
proof fn lemma_top_piece_on_board(shape: Shape)
    ensures
        origin_ok(top_piece(shape)),
        forall|i: int|
            0 <= i < 4 ==> 3 <= #[trigger] blocks_of(top_piece(shape))[i].0 <= 7 && 0
                <= blocks_of(top_piece(shape))[i].1 <= 1,
{
    let t = top_piece(shape);
    assert(blocks_of(t)[0] == (t.origin.0 + shape_cells(t.shape, t.orientation)[0].0, t.origin.1 + shape_cells(t.shape, t.orientation)[0].1));
    assert(blocks_of(t)[1] == (t.origin.0 + shape_cells(t.shape, t.orientation)[1].0, t.origin.1 + shape_cells(t.shape, t.orientation)[1].1));
    assert(blocks_of(t)[2] == (t.origin.0 + shape_cells(t.shape, t.orientation)[2].0, t.origin.1 + shape_cells(t.shape, t.orientation)[2].1));
    assert(blocks_of(t)[3] == (t.origin.0 + shape_cells(t.shape, t.orientation)[3].0, t.origin.1 + shape_cells(t.shape, t.orientation)[3].1));
}

/// A preview piece lies within four columns and two rows.
proof fn lemma_hint_piece_in_preview(shape: Shape)
    ensures
        origin_ok(hint_piece(shape)),
        forall|i: int|
            0 <= i < 4 ==> 0 <= #[trigger] blocks_of(hint_piece(shape))[i].0 <= 3 && 0
                <= blocks_of(hint_piece(shape))[i].1 <= 1,
{
    let t = hint_piece(shape);
    assert(blocks_of(t)[0] == (t.origin.0 + shape_cells(t.shape, t.orientation)[0].0, t.origin.1 + shape_cells(t.shape, t.orientation)[0].1));
    assert(blocks_of(t)[1] == (t.origin.0 + shape_cells(t.shape, t.orientation)[1].0, t.origin.1 + shape_cells(t.shape, t.orientation)[1].1));
    assert(blocks_of(t)[2] == (t.origin.0 + shape_cells(t.shape, t.orientation)[2].0, t.origin.1 + shape_cells(t.shape, t.orientation)[2].1));
    assert(blocks_of(t)[3] == (t.origin.0 + shape_cells(t.shape, t.orientation)[3].0, t.origin.1 + shape_cells(t.shape, t.orientation)[3].1));
}

impl Tetromino {
    /// A piece of `shape` entering the board at the top.
    pub fn at_top(shape: Shape) -> (r: Self)
        ensures
            r == top_piece(shape),
    {
        let origin = match shape {
            Shape::I => (3, -2),
            Shape::O => (4, 0),
            Shape::T => (4, -1),
            Shape::S => (4, -1),
            Shape::Z => (4, -1),
            Shape::J => (4, -1),
            Shape::L => (4, -1),
        };
        Self { origin, orientation: Orientation::First, shape }
    }

    /// A piece of `shape` placed in the small preview of the next piece.
    pub fn in_upcoming_hint(shape: Shape) -> (r: Self)
        ensures
            r == hint_piece(shape),
    {
        let origin = match shape {
            Shape::I => (0, -2),
            Shape::O => (0, 0),
            Shape::T => (0, -1),
            Shape::S => (0, -1),
            Shape::Z => (0, -1),
            Shape::J => (0, -1),
            Shape::L => (0, -1),
        };
        Self { origin, orientation: Orientation::First, shape }
    }

    /// The cells covered, from cells relative to the origin.
    pub fn resolve(&self, points: [Point; 4]) -> (r: [Point; 4])
        requires
            origin_ok(*self),
            forall|i: int| 0 <= i < 4 ==> 0 <= #[trigger] points@[i].0 <= 3 && 0 <= points@[i].1 <= 3,
        ensures
            forall|i: int|
                0 <= i < 4 ==> #[trigger] r@[i].0 == self.origin.0 + points@[i].0 && r@[i].1
                    == self.origin.1 + points@[i].1,
    {
        let o = self.origin;
        [
            (o.0 + points[0].0, o.1 + points[0].1),
            (o.0 + points[1].0, o.1 + points[1].1),
            (o.0 + points[2].0, o.1 + points[2].1),
            (o.0 + points[3].0, o.1 + points[3].1),
        ]
    }

    /// The four cells that the piece covers.
    pub fn blocks(&self) -> (r: [Point; 4])
        requires
            origin_ok(*self),
        ensures
            forall|i: int|
                0 <= i < 4 ==> (#[trigger] r@[i].0 as int, r@[i].1 as int) == blocks_of(*self)[i],
    {
        match self.shape {
            Shape::I => match self.orientation {
                Orientation::First | Orientation::Third => {
                    self.resolve([(0, 2), (1, 2), (2, 2), (3, 2)])
                },
                Orientation::Second | Orientation::Fourth => {
                    self.resolve([(2, 0), (2, 1), (2, 2), (2, 3)])
                },
            },
            Shape::O => self.resolve([(0, 0), (1, 0), (0, 1), (1, 1)]),
            Shape::T => match self.orientation {
                Orientation::First => self.resolve([(0, 1), (1, 1), (2, 1), (1, 2)]),
                Orientation::Second => self.resolve([(0, 1), (1, 0), (1, 1), (1, 2)]),
                Orientation::Third => self.resolve([(0, 1), (1, 1), (2, 1), (1, 0)]),
                Orientation::Fourth => self.resolve([(2, 1), (1, 0), (1, 1), (1, 2)]),
            },
            Shape::S => match self.orientation {
                Orientation::First | Orientation::Third => {
                    self.resolve([(0, 2), (1, 2), (1, 1), (2, 1)])
                },
                Orientation::Second | Orientation::Fourth => {
                    self.resolve([(1, 0), (1, 1), (2, 1), (2, 2)])
                },
            },
            Shape::Z => match self.orientation {
                Orientation::First | Orientation::Third => {
                    self.resolve([(0, 1), (1, 1), (1, 2), (2, 2)])
                },
                Orientation::Second | Orientation::Fourth => {
                    self.resolve([(1, 2), (1, 1), (2, 1), (2, 0)])
                },
            },
            Shape::J => match self.orientation {
                Orientation::First => self.resolve([(0, 1), (1, 1), (2, 1), (2, 2)]),
                Orientation::Second => self.resolve([(0, 2), (1, 2), (1, 1), (1, 0)]),
                Orientation::Third => self.resolve([(0, 0), (0, 1), (1, 1), (2, 1)]),
                Orientation::Fourth => self.resolve([(1, 2), (1, 1), (1, 0), (2, 0)]),
            },
            Shape::L => match self.orientation {
                Orientation::First => self.resolve([(0, 2), (0, 1), (1, 1), (2, 1)]),
                Orientation::Second => self.resolve([(0, 0), (1, 0), (1, 1), (1, 2)]),
                Orientation::Third => self.resolve([(0, 1), (1, 1), (2, 1), (2, 0)]),
                Orientation::Fourth => self.resolve([(1, 0), (1, 1), (1, 2), (2, 2)]),
            },
        }
    }

    pub fn color(&self) -> (r: Color)
        ensures
            r == shape_color(self.shape),
    {
        match self.shape {
            Shape::I => (235, 50, 50),
            Shape::O => (50, 235, 50),
            Shape::T => (80, 80, 235),
            Shape::S => (170, 170, 50),
            Shape::Z => (50, 170, 170),
            Shape::J => (170, 50, 170),
            Shape::L => (200, 100, 100),
        }
    }

    /// The same piece moved one cell in `direction`.
    pub fn translate(&self, direction: Direction) -> (r: Self)
        requires
            origin_ok(*self),
        ensures
            r.origin.0 == self.origin.0 + offset(direction).0,
            r.origin.1 == self.origin.1 + offset(direction).1,
            r.orientation == self.orientation,
            r.shape == self.shape,
    {
        Self { origin: translated(self.origin, direction), orientation: self.orientation, shape: self.shape }
    }

    /// The same piece turned a quarter turn about its origin.
    pub fn rotated(&self) -> (r: Self)
        ensures
            r.origin == self.origin,
            r.orientation == next_orientation(self.orientation),
            r.shape == self.shape,
    {
        Self { origin: self.origin, orientation: self.orientation.rotated(), shape: self.shape }
    }
}

/// The piece moved one cell in `direction`.
pub open spec fn moved_by(t: Tetromino, direction: Direction) -> Tetromino {
    Tetromino {
        origin: ((t.origin.0 + offset(direction).0) as i16, (t.origin.1 + offset(direction).1) as i16),
        ..t
    }
}

/// The piece turned a quarter turn.
pub open spec fn turned(t: Tetromino) -> Tetromino {
    Tetromino { orientation: next_orientation(t.orientation), ..t }
}

/// The cell `b` is taken in `g` (or lies outside it) by something other than
/// the falling piece.
pub open spec fn hit(g: GridView, falling: Option<Tetromino>, b: (int, int)) -> bool {
    g.cell(b.0, b.1) != Some(Cell::Blank) && !(falling matches Some(f) && covers(blocks_of(f), b.0, b.1))
}

/// Some cell of `t` is taken in `g` by something other than the falling piece.
pub open spec fn collides(g: GridView, falling: Option<Tetromino>, t: Tetromino) -> bool {
    let bs = blocks_of(t);
    hit(g, falling, bs[0]) || hit(g, falling, bs[1]) || hit(g, falling, bs[2]) || hit(g, falling, bs[3])
}

/// The piece lies on the board with its cells in its color.
pub open spec fn placed(g: GridView, t: Tetromino) -> bool {
    &&& origin_ok(t)
    &&& forall|i: int|
        0 <= i < 4 ==> g.cell(#[trigger] blocks_of(t)[i].0, blocks_of(t)[i].1) == Some(
            Cell::Colored(shape_color(t.shape)),
        )
}

/// `g2` is `g` with the cells of `from` blank and then those of `to` in the
/// color of `to`.
pub open spec fn repainted(g: GridView, g2: GridView, from: Tetromino, to: Tetromino) -> bool {
    &&& g2.wf()
    &&& g2.width == g.width
    &&& g2.height == g.height
    &&& forall|x: int, y: int|
        #[trigger] g2.cell(x, y) == if covers(blocks_of(to), x, y) {
            Some(Cell::Colored(shape_color(to.shape)))
        } else if covers(blocks_of(from), x, y) {
            Some(Cell::Blank)
        } else {
            g.cell(x, y)
        }
}

/// A piece whose cells all lie on the board has a small origin.
proof fn lemma_on_board_origin_ok(g: GridView, t: Tetromino)
    requires
        g.wf(),
        g.in_bounds(blocks_of(t)[0].0, blocks_of(t)[0].1),
    ensures
        origin_ok(t),
        -3 <= t.origin.0 <= 255,
        -3 <= t.origin.1 <= 255,
{
    lemma_shape_cells_small(t.shape, t.orientation);
    assert(blocks_of(t)[0] == (t.origin.0 + shape_cells(t.shape, t.orientation)[0].0, t.origin.1 + shape_cells(t.shape, t.orientation)[0].1));
}

/// Paints the four cells `bs`, which lie in the buffer, with `value`.
fn paint(buf: &mut GraphicsBuf, bs: [Point; 4], value: Cell)
    requires
        old(buf).wf(),
        forall|i: int| 0 <= i < 4 ==> old(buf)@.in_bounds(#[trigger] bs@[i].0 as int, bs@[i].1 as int),
    ensures
        final(buf).wf(),
        final(buf)@.width == old(buf)@.width,
        final(buf)@.height == old(buf)@.height,
        forall|x: int, y: int|
            #[trigger] final(buf)@.cell(x, y) == if covers(points(bs@), x, y) {
                Some(value)
            } else {
                old(buf)@.cell(x, y)
            },
{
    let ghost g0 = buf@;
    proof {
        lemma_with_cell(buf@, bs[0].0 as int, bs[0].1 as int, value);
    }
    buf.set(bs[0], value);
    let ghost g1 = buf@;
    proof {
        lemma_with_cell(buf@, bs[1].0 as int, bs[1].1 as int, value);
    }
    buf.set(bs[1], value);
    let ghost g2 = buf@;
    proof {
        lemma_with_cell(buf@, bs[2].0 as int, bs[2].1 as int, value);
    }
    buf.set(bs[2], value);
    let ghost g3 = buf@;
    proof {
        lemma_with_cell(buf@, bs[3].0 as int, bs[3].1 as int, value);
    }
    buf.set(bs[3], value);
    assert(bs@.len() == 4);
}

/// The cells of an array of points, as pairs of integers.
pub open spec fn points(bs: Seq<Point>) -> Seq<(int, int)> {
    bs.map_values(|p: Point| (p.0 as int, p.1 as int))
}

/// The preview of the next piece: four columns, two rows.
pub open spec fn preview_ok(g: GridView) -> bool {
    g.wf() && g.width == 4 && g.height == 2
}

/// Four items, the third of them the preview.
pub open spec fn panel_layout_ok(p: SidePanel) -> bool {
    &&& p.items@.len() == 4
    &&& p.items@[2] matches PanelItem::GraphicsItem { buf } && preview_ok(buf@)
}

/// The preview in the side panel shows `shape`.
pub open spec fn panel_previews(p: Option<SidePanel>, shape: Shape) -> bool {
    p matches Some(panel) && (panel.items@[2] matches PanelItem::GraphicsItem { buf } && previews(buf@, shape))
}

/// The preview shows `shape` and nothing else.
pub open spec fn previews(g: GridView, shape: Shape) -> bool {
    &&& preview_ok(g)
    &&& forall|x: int, y: int|
        g.in_bounds(x, y) ==> #[trigger] g.cell(x, y) == Some(
            if covers(blocks_of(hint_piece(shape)), x, y) {
                Cell::Colored(shape_color(shape))
            } else {
                Cell::Blank
            },
        )
}

/// A shape drawn at random.
fn generate_next() -> Shape {
    let shapes: [Shape; 7] = [Shape::I, Shape::O, Shape::T, Shape::S, Shape::Z, Shape::J, Shape::L];
    shapes[random_below(7)]
}

/// After a landing on `before`: the complete rows are cleared and one point
/// scored for each, the upcoming piece is painted at the top of what is left
/// and falls unless one of its cells was taken (which ends the game), and
/// `next_shape` comes up next.
pub open spec fn landed(before: Tetris, after: Tetris, next_shape: Shape) -> bool {
    let left = cleared(rows(before.board()), 10);
    let next = top_piece(before.next_shape());
    &&& after.next_shape() == next_shape
    &&& panel_previews(after.panel(), next_shape)
    &&& after.title() == before.title()
    &&& after.piece() is None ==> after.status() == Some(
        "Game over.\nScore: "@ + decimal(after.points_scored() as nat),
    )
    &&& after.piece() is Some && complete_count(rows(before.board())) > 0 ==> after.status() == Some(
        "Score: "@ + decimal(after.points_scored() as nat),
    )
    &&& after.piece() is Some && complete_count(rows(before.board())) == 0 ==> after.status() == before.status()
    &&& after.points_scored() == score_plus(before.points_scored(), complete_count(rows(before.board())))
    &&& after.delay() == delay_after(before.delay(), before.points_scored(), complete_count(rows(before.board())) as nat)
    &&& (after.piece() is Some <==> forall|i: int|
        0 <= i < 4 ==> #[trigger] left[blocks_of(next)[i].1][blocks_of(next)[i].0] == Cell::Blank)
    &&& after.piece() matches Some(t) ==> t == next
    &&& after.board().width == 10 && after.board().height == 20
    &&& forall|x: int, y: int|
        #[trigger] after.board().in_bounds(x, y) ==> after.board().cell(x, y) == Some(
            if covers(blocks_of(next), x, y) {
                Cell::Colored(shape_color(next.shape))
            } else {
                left[y][x]
            },
        )
}

/// Everything but the frame count and the hold flag is the same.
pub open spec fn same_but_timing(a: Tetris, b: Tetris) -> bool {
    &&& b.board() == a.board()
    &&& b.piece() == a.piece()
    &&& b.next_shape() == a.next_shape()
    &&& b.points_scored() == a.points_scored()
    &&& b.delay() == a.delay()
    &&& b.panel() == a.panel()
    &&& b.title() == a.title()
}

/// `after` is `before` with the falling piece replaced by `to` and the board
/// repainted, if `to` collides with nothing; otherwise nothing changes. Either
/// way the frame count becomes `frame` and the hold flag `held`.
pub open spec fn shifted(before: Tetris, after: Tetris, to: Tetromino, frame: int, held: bool) -> bool {
    &&& after.frames() == frame
    &&& after.held() == held
    &&& !collides(before.board(), before.piece(), to) ==> {
        &&& after.piece() == Some(to)
        &&& repainted(before.board(), after.board(), before.piece()->Some_0, to)
        &&& after.points_scored() == before.points_scored()
        &&& after.delay() == before.delay()
        &&& after.next_shape() == before.next_shape()
        &&& after.panel() == before.panel()
        &&& after.title() == before.title()
    }
    &&& collides(before.board(), before.piece(), to) ==> same_but_timing(before, after)
}

/// One frame from `before` to `after` with the hold flag `held` in effect,
/// and `next_shape` as the shape that follows the upcoming one should the
/// piece land. Once the game is over only the hold flag is set. Otherwise the
/// frame is counted, and unless the piece is held down only one frame in
/// `delay()` lets it fall; a piece that cannot fall lands (see `landed`).
pub open spec fn advanced_with(before: Tetris, after: Tetris, next_shape: Shape, held: bool) -> bool {
    let frame = if before.frames() == u32::MAX { 0 } else { before.frames() + 1 };
    let falls = held || frame % before.delay() == 0;
    let down = moved_by(before.piece()->Some_0, Direction::Down);
    &&& before.piece() is None ==> same_but_timing(before, after) && after.frames() == before.frames()
        && after.held() == held
    &&& before.piece() is Some && !falls ==> same_but_timing(before, after) && after.frames() == frame
        && after.held() == held
    &&& before.piece() is Some && falls && !collides(before.board(), before.piece(), down) ==> shifted(
        before,
        after,
        down,
        frame,
        held,
    )
    &&& before.piece() is Some && falls && collides(before.board(), before.piece(), down) ==> {
        &&& landed(before, after, next_shape)
        &&& after.frames() == frame
        &&& after.held() == held
    }
}

/// One frame from `before` to `after` (see `advanced_with`); once the game
/// is over nothing changes.
pub open spec fn advanced(before: Tetris, after: Tetris, next_shape: Shape) -> bool {
    &&& advanced_with(before, after, next_shape, before.held())
    &&& before.piece() is None ==> after == before
}

/// The effect of pressing `key`, once the game is not over: 'a' and 'd' move
/// the piece left and right, 'w' turns it, 's' holds it down and, if it was
/// not held already, runs a frame at once. Other keys, and every key once the
/// game is over, change nothing.
pub open spec fn pressed(before: Tetris, after: Tetris, key: char) -> bool {
    let f = before.piece()->Some_0;
    &&& before.piece() is None ==> after == before
    &&& before.piece() is Some ==> {
        &&& key == 'a' ==> shifted(before, after, moved_by(f, Direction::Left), before.frames(), before.held())
        &&& key == 'd' ==> shifted(before, after, moved_by(f, Direction::Right), before.frames(), before.held())
        &&& key == 'w' ==> shifted(before, after, turned(f), before.frames(), before.held())
        &&& key == 's' && before.held() ==> after == before
        &&& key == 's' && !before.held() ==> exists|s: Shape| #[trigger] advanced_with(before, after, s, true)
        &&& key != 'a' && key != 'd' && key != 'w' && key != 's' ==> after == before
    }
}

/// Tetris on a board of ten columns and twenty rows.
pub struct Tetris {
    graphics: Graphics,
    falling: Option<Tetromino>,
    upcoming: Shape,
    holding_down: bool,
    frame: u32,
    fall_delay: u32,
    score: u32,
}

impl Tetris {
    /// The board.
    pub closed spec fn board(&self) -> GridView {
        self.graphics.buf@
    }

    /// The falling piece; `None` once the game is over.
    pub closed spec fn piece(&self) -> Option<Tetromino> {
        self.falling
    }

    /// The shape of the next piece.
    pub closed spec fn next_shape(&self) -> Shape {
        self.upcoming
    }

    /// The side panel.
    pub closed spec fn panel(&self) -> Option<SidePanel> {
        self.graphics.side_panel
    }

    /// The text of the first item of the side panel: the score.
    pub closed spec fn status(&self) -> Option<Seq<char>> {
        match self.graphics.side_panel {
            Some(p) => match p.items@[0] {
                PanelItem::TextItem { text } => Some(text@),
                _ => None,
            },
            None => None,
        }
    }

    /// The title shown above the board.
    pub closed spec fn title(&self) -> Seq<char> {
        self.graphics.title@
    }

    /// The frames counted so far.
    pub closed spec fn frames(&self) -> int {
        self.frame as int
    }

    /// Whether the piece is held down.
    pub closed spec fn held(&self) -> bool {
        self.holding_down
    }

    /// The number of rows cleared so far.
    pub closed spec fn points_scored(&self) -> int {
        self.score as int
    }

    /// One frame in this many lets the piece fall, unless held down.
    pub closed spec fn delay(&self) -> int {
        self.fall_delay as int
    }

    /// The side panel holds the score, a caption, the preview of the next
    /// piece and the help text.
    pub closed spec fn layout_ok(&self) -> bool {
        &&& self.graphics.buf.wf()
        &&& self.graphics.buf@.width == 10
        &&& self.graphics.buf@.height == 20
        &&& self.graphics.side_panel matches Some(p) && panel_layout_ok(p)
    }

    /// Whether `hypothetical` would overlap a taken cell or leave the board;
    /// cells of the falling piece do not count as taken.
    fn would_collide(&self, hypothetical: Tetromino) -> (r: bool)
        requires
            self.graphics.buf.wf(),
            origin_ok(hypothetical),
            self.falling matches Some(f) ==> origin_ok(f),
        ensures
            r == collides(self.board(), self.piece(), hypothetical),
    {
        let bs = hypothetical.blocks();
        let falling_blocks: Option<[Point; 4]> = match self.falling {
            Some(f) => Some(f.blocks()),
            None => None,
        };
        let h0 = self.hits(bs[0], falling_blocks);
        let h1 = self.hits(bs[1], falling_blocks);
        let h2 = self.hits(bs[2], falling_blocks);
        let h3 = self.hits(bs[3], falling_blocks);
        h0 || h1 || h2 || h3
    }

    fn hits(&self, block: Point, falling_blocks: Option<[Point; 4]>) -> (r: bool)
        requires
            self.graphics.buf.wf(),
            falling_blocks is Some <==> self.falling is Some,
            falling_blocks matches Some(a) ==> forall|i: int|
                0 <= i < 4 ==> (#[trigger] a@[i].0 as int, a@[i].1 as int) == blocks_of(
                    self.falling->Some_0,
                )[i],
        ensures
            r == hit(self.board(), self.piece(), (block.0 as int, block.1 as int)),
    {
        let taken = match self.graphics.buf.get(block) {
            Some(cell) => cell != Cell::Blank,
            None => true,
        };
        let own = match falling_blocks {
            Some(a) => {
                assert((a@[0].0 as int, a@[0].1 as int) == blocks_of(self.falling->Some_0)[0]);
                assert((a@[1].0 as int, a@[1].1 as int) == blocks_of(self.falling->Some_0)[1]);
                assert((a@[2].0 as int, a@[2].1 as int) == blocks_of(self.falling->Some_0)[2]);
                assert((a@[3].0 as int, a@[3].1 as int) == blocks_of(self.falling->Some_0)[3]);
                (a[0].0 == block.0 && a[0].1 == block.1) || (a[1].0 == block.0 && a[1].1 == block.1)
                    || (a[2].0 == block.0 && a[2].1 == block.1) || (a[3].0 == block.0 && a[3].1
                    == block.1)
            },
            None => false,
        };
        taken && !own
    }

    /// Replaces the falling piece by `to`, repainting the board.
    fn replace_falling(&mut self, to: Tetromino)
        requires
            old(self).layout_ok(),
            old(self).falling matches Some(f) && placed(old(self).board(), f),
            origin_ok(to),
            !collides(old(self).board(), old(self).piece(), to),
        ensures
            final(self).layout_ok(),
            final(self).falling == Some(to),
            repainted(old(self).board(), final(self).board(), old(self).falling->Some_0, to),
            placed(final(self).board(), to),
            final(self).upcoming == old(self).upcoming,
            final(self).holding_down == old(self).holding_down,
            final(self).frame == old(self).frame,
            final(self).fall_delay == old(self).fall_delay,
            final(self).score == old(self).score,
            final(self).graphics.side_panel == old(self).graphics.side_panel,
            final(self).graphics.title == old(self).graphics.title,
    {
        let from = self.falling.unwrap();
        let old_blocks = from.blocks();
        let new_blocks = to.blocks();
        assert forall|i: int| 0 <= i < 4 implies self.graphics.buf@.in_bounds(
            #[trigger] old_blocks@[i].0 as int,
            old_blocks@[i].1 as int,
        ) by {
            assert((old_blocks@[i].0 as int, old_blocks@[i].1 as int) == blocks_of(from)[i]);
        }
        paint(&mut self.graphics.buf, old_blocks, Cell::Blank);
        let ghost mid = self.graphics.buf@;
        assert forall|i: int| 0 <= i < 4 implies self.graphics.buf@.in_bounds(
            #[trigger] new_blocks@[i].0 as int,
            new_blocks@[i].1 as int,
        ) by {
            assert((new_blocks@[i].0 as int, new_blocks@[i].1 as int) == blocks_of(to)[i]);
            assert(!hit(old(self).board(), old(self).piece(), blocks_of(to)[i]));
        }
        paint(&mut self.graphics.buf, new_blocks, Cell::Colored(to.color()));
        assert(points(old_blocks@) =~= blocks_of(from));
        assert(points(new_blocks@) =~= blocks_of(to));
        self.falling = Some(to);
    }

    /// Moves the falling piece one cell in `direction` unless that would
    /// collide; says whether it moved.
    fn try_move(&mut self, direction: Direction) -> (r: bool)
        requires
            old(self).valid(),
            old(self).piece() is Some,
        ensures
            final(self).valid(),
            r == !collides(old(self).board(), old(self).piece(), moved_by(old(self).piece()->Some_0, direction)),
            shifted(*old(self), *final(self), moved_by(old(self).piece()->Some_0, direction), old(self).frames(), old(self).held()),
    {
        proof {
            let f = self.falling->Some_0;
            assert(self.board().cell(blocks_of(f)[0].0, blocks_of(f)[0].1) is Some);
            lemma_on_board_origin_ok(self.board(), f);
        }
        let moved = self.falling.unwrap().translate(direction);
        assert(moved == moved_by(self.falling->Some_0, direction));
        if self.would_collide(moved) {
            false
        } else {
            proof {
                lemma_not_colliding_on_board(self.board(), self.falling, moved);
            }
            self.replace_falling(moved);
            true
        }
    }

    /// Turns the falling piece a quarter turn unless that would collide.
    fn rotate_if_possible(&mut self)
        requires
            old(self).valid(),
            old(self).piece() is Some,
        ensures
            final(self).valid(),
            shifted(*old(self), *final(self), turned(old(self).piece()->Some_0), old(self).frames(), old(self).held()),
    {
        let rotated = self.falling.unwrap().rotated();
        if !self.would_collide(rotated) {
            proof {
                lemma_not_colliding_on_board(self.board(), self.falling, rotated);
            }
            self.replace_falling(rotated);
        }
    }

    pub open spec fn valid(&self) -> bool {
        &&& self.layout_ok()
        &&& self.board().width == 10
        &&& self.board().height == 20
        &&& 1 <= self.delay()
        &&& self.piece() matches Some(t) ==> placed(self.board(), t)
    }
}

/// A piece that collides with nothing lies on the board.
proof fn lemma_not_colliding_on_board(g: GridView, falling: Option<Tetromino>, t: Tetromino)
    requires
        g.wf(),
        !collides(g, falling, t),
        falling matches Some(f) ==> placed(g, f),
    ensures
        origin_ok(t),
        forall|i: int| 0 <= i < 4 ==> g.in_bounds(#[trigger] blocks_of(t)[i].0, blocks_of(t)[i].1),
{
    lemma_shape_cells_small(t.shape, t.orientation);
    assert forall|i: int| 0 <= i < 4 implies g.in_bounds(#[trigger] blocks_of(t)[i].0, blocks_of(t)[i].1) by {
        assert(!hit(g, falling, blocks_of(t)[i]));
        if let Some(f) = falling {
            lemma_shape_cells_small(f.shape, f.orientation);
            if covers(blocks_of(f), blocks_of(t)[i].0, blocks_of(t)[i].1) {
                assert(g.cell(blocks_of(f)[0].0, blocks_of(f)[0].1) is Some);
                assert(g.cell(blocks_of(f)[1].0, blocks_of(f)[1].1) is Some);
                assert(g.cell(blocks_of(f)[2].0, blocks_of(f)[2].1) is Some);
                assert(g.cell(blocks_of(f)[3].0, blocks_of(f)[3].1) is Some);
            }
        }
    }
    lemma_on_board_origin_ok(g, t);
}

/// The cells of row `y`, left to right.
pub open spec fn row(g: GridView, y: int) -> Seq<Cell> {
    Seq::new(g.width as nat, |x: int| g.cells[g.index_of(x, y)])
}

/// The rows of the grid, top to bottom.
pub open spec fn rows(g: GridView) -> Seq<Seq<Cell>> {
    Seq::new(g.height as nat, |y: int| row(g, y))
}

/// A row without a blank cell.
pub open spec fn row_complete(r: Seq<Cell>) -> bool {
    forall|x: int| 0 <= x < r.len() ==> r[x] != Cell::Blank
}

pub open spec fn blank_row(w: nat) -> Seq<Cell> {
    Seq::new(w, |x: int| Cell::Blank)
}

pub open spec fn blank_rows(n: nat, w: nat) -> Seq<Seq<Cell>> {
    Seq::new(n, |i: int| blank_row(w))
}

/// The rows that are not complete, in order.
pub open spec fn incomplete_rows(rs: Seq<Seq<Cell>>) -> Seq<Seq<Cell>> {
    rs.filter(|r: Seq<Cell>| !row_complete(r))
}

/// The number of complete rows.
pub open spec fn complete_count(rs: Seq<Seq<Cell>>) -> int {
    rs.len() - incomplete_rows(rs).len()
}

/// The rows with every complete one taken out and the rest dropped to the
/// bottom, blank rows of width `w` filling the top.
pub open spec fn cleared(rs: Seq<Seq<Cell>>, w: nat) -> Seq<Seq<Cell>> {
    blank_rows(complete_count(rs) as nat, w) + incomplete_rows(rs)
}

/// `s + n`, held at the largest `u32`.
pub open spec fn score_plus(s: int, n: int) -> int {
    if s + n > u32::MAX {
        u32::MAX as int
    } else {
        s + n
    }
}

/// The fall delay after `n` rows are cleared from a score of `s`: every time
/// the score turns even, one frame less, down to one.
pub open spec fn delay_after(d: int, s: int, n: nat) -> int
    decreases n,
{
    if n == 0 {
        d
    } else {
        let d1 = delay_after(d, s, (n - 1) as nat);
        if score_plus(s, n as int) % 2 == 0 {
            if d1 - 1 < 1 {
                1
            } else {
                d1 - 1
            }
        } else {
            d1
        }
    }
}

proof fn lemma_filter_all(rs: Seq<Seq<Cell>>)
    requires
        forall|i: int| 0 <= i < rs.len() ==> !row_complete(#[trigger] rs[i]),
    ensures
        incomplete_rows(rs) == rs,
    decreases rs.len(),
{
    reveal(Seq::filter);
    if rs.len() > 0 {
        lemma_filter_all(rs.drop_last());
        assert(rs.drop_last().push(rs.last()) =~= rs);
    }
}

/// Taking out a complete row and putting a blank one on top leaves the
/// cleared rows as they were, with one complete row less.
proof fn lemma_shift_keeps_cleared(rs: Seq<Seq<Cell>>, y: int, w: nat)
    requires
        0 <= y < rs.len(),
        row_complete(rs[y]),
        w > 0,
    ensures
        ({
            let rs2 = seq![blank_row(w)] + rs.subrange(0, y) + rs.subrange(y + 1, rs.len() as int);
            &&& cleared(rs2, w) == cleared(rs, w)
            &&& complete_count(rs2) == complete_count(rs) - 1
            &&& rs2.len() == rs.len()
        }),
{
    let pred = |r: Seq<Cell>| !row_complete(r);
    let a = rs.subrange(0, y);
    let b = rs.subrange(y + 1, rs.len() as int);
    let one = seq![rs[y]];
    let top = seq![blank_row(w)];
    assert(rs =~= a + one + b);
    Seq::filter_distributes_over_add(a + one, b, pred);
    Seq::filter_distributes_over_add(a, one, pred);
    Seq::filter_distributes_over_add(top + a, b, pred);
    Seq::filter_distributes_over_add(top, a, pred);
    reveal(Seq::filter);
    assert(!row_complete(blank_row(w))) by {
        assert(blank_row(w)[0] == Cell::Blank);
    }
    assert(one.drop_last() =~= Seq::<Seq<Cell>>::empty());
    assert(top.drop_last() =~= Seq::<Seq<Cell>>::empty());
    assert(one.filter(pred) =~= Seq::<Seq<Cell>>::empty());
    assert(top.filter(pred) =~= top);
    let rs2 = top + a + b;
    assert(incomplete_rows(rs2) =~= top + incomplete_rows(a) + incomplete_rows(b));
    assert(incomplete_rows(rs) =~= incomplete_rows(a) + incomplete_rows(b));
    let k = complete_count(rs);
    assert(blank_rows(k as nat, w) =~= blank_rows((k - 1) as nat, w) + top);
}

/// Whether row `y` of the buffer has no blank cell.
fn row_is_complete(buf: &GraphicsBuf, y: i16) -> (r: bool)
    requires
        buf.wf(),
        0 <= y < buf@.height,
    ensures
        r == row_complete(row(buf@, y as int)),
{
    let w = buf.dimensions().0;
    let mut x: u8 = 0;
    while x < w
        invariant
            buf.wf(),
            0 <= y < buf@.height,
            w == buf@.width,
            x <= w,
            forall|i: int| 0 <= i < x ==> row(buf@, y as int)[i] != Cell::Blank,
        decreases w - x,
    {
        let cell = buf.get((x as i16, y)).unwrap();
        assert(row(buf@, y as int)[x as int] == cell);
        if cell == Cell::Blank {
            return false;
        }
        x = x + 1;
    }
    true
}

/// The cell that lands at `(x, r)` when the rows above drop by one.
pub open spec fn from_above(g: GridView, x: int, r: int) -> Cell {
    if r == 0 {
        Cell::Blank
    } else {
        g.cells[g.index_of(x, r - 1)]
    }
}

/// Drops every row above row `y` by one, over row `y`; the top row turns blank.
fn drop_rows_onto(buf: &mut GraphicsBuf, y: i16)
    requires
        old(buf).wf(),
        0 <= y < old(buf)@.height,
    ensures
        final(buf).wf(),
        final(buf)@.width == old(buf)@.width,
        final(buf)@.height == old(buf)@.height,
        forall|x: int, r: int|
            old(buf)@.in_bounds(x, r) ==> #[trigger] final(buf)@.cell(x, r) == if r <= y {
                Some(from_above(old(buf)@, x, r))
            } else {
                old(buf)@.cell(x, r)
            },
{
    let ghost g = buf@;
    let w = buf.dimensions().0;
    let mut s: i16 = y;
    while s >= 0
        invariant
            buf.wf(),
            buf@.width == g.width,
            buf@.height == g.height,
            w == g.width,
            -1 <= s <= y,
            0 <= y < g.height,
            g.wf(),
            forall|x: int, r: int|
                g.in_bounds(x, r) ==> #[trigger] buf@.cell(x, r) == if s < r <= y {
                    Some(from_above(g, x, r))
                } else {
                    g.cell(x, r)
                },
        decreases s + 1,
    {
        let mut x: u8 = 0;
        while x < w
            invariant
                buf.wf(),
                buf@.width == g.width,
                buf@.height == g.height,
                w == g.width,
                0 <= s <= y,
                0 <= y < g.height,
                g.wf(),
                x <= w,
                forall|i: int, r: int|
                    g.in_bounds(i, r) ==> #[trigger] buf@.cell(i, r) == if (s < r <= y) || (r == s
                        && i < x) {
                        Some(from_above(g, i, r))
                    } else {
                        g.cell(i, r)
                    },
            decreases w - x,
        {
            let above = match buf.get((x as i16, s - 1)) {
                Some(c) => c,
                None => Cell::Blank,
            };
            proof {
                lemma_with_cell(buf@, x as int, s as int, above);
                if s > 0 {
                    assert(buf@.cell(x as int, s - 1) == g.cell(x as int, s - 1));
                }
            }
            buf.set((x as i16, s), above);
            x = x + 1;
        }
        s = s - 1;
    }
}

/// The rows after dropping the rows above row `y` onto it.
proof fn lemma_dropped_rows(g: GridView, g2: GridView, y: int)
    requires
        g.wf(),
        g2.wf(),
        g2.width == g.width,
        g2.height == g.height,
        0 <= y < g.height,
        forall|x: int, r: int|
            g.in_bounds(x, r) ==> #[trigger] g2.cell(x, r) == if r <= y {
                Some(from_above(g, x, r))
            } else {
                g.cell(x, r)
            },
    ensures
        rows(g2) == seq![blank_row(g.width as nat)] + rows(g).subrange(0, y) + rows(g).subrange(
            y + 1,
            g.height,
        ),
{
    let rs = rows(g);
    let rs2 = seq![blank_row(g.width as nat)] + rs.subrange(0, y) + rs.subrange(y + 1, g.height);
    assert forall|r: int| 0 <= r < g.height implies #[trigger] rows(g2)[r] =~= rs2[r] by {
        assert forall|x: int| 0 <= x < g.width implies #[trigger] rows(g2)[r][x] == rs2[r][x] by {
            assert(g2.cell(x, r) == Some(rows(g2)[r][x]));
            if r > 0 {
                assert(g.cell(x, r - 1) == Some(rs[r - 1][x]));
            }
            assert(g.cell(x, r) == Some(rs[r][x]));
        }
    }
    assert(rows(g2) =~= rs2);
}

impl Tetris {
    /// Takes every complete row out of the board, drops the rows above, and
    /// adds one point per row; the fall delay shortens on every even score.
    fn remove_any_complete_rows(&mut self)
        requires
            old(self).layout_ok(),
            old(self).delay() >= 1,
        ensures
            final(self).layout_ok(),
            rows(final(self).board()) == cleared(rows(old(self).board()), 10),
            final(self).points_scored() == score_plus(
                old(self).points_scored(),
                complete_count(rows(old(self).board())),
            ),
            final(self).delay() == delay_after(
                old(self).delay(),
                old(self).points_scored(),
                complete_count(rows(old(self).board())) as nat,
            ),
            final(self).delay() >= 1,
            complete_count(rows(old(self).board())) > 0 ==> final(self).status() == Some(
                "Score: "@ + decimal(final(self).points_scored() as nat),
            ),
            complete_count(rows(old(self).board())) == 0 ==> final(self).panel() == old(self).panel(),
            final(self).falling == old(self).falling,
            final(self).upcoming == old(self).upcoming,
            final(self).holding_down == old(self).holding_down,
            final(self).frame == old(self).frame,
            final(self).graphics.title == old(self).graphics.title,
    {
        let ghost rs0 = rows(self.graphics.buf@);
        let ghost k0 = complete_count(rs0);
        proof {
            rs0.lemma_filter_len(|r: Seq<Cell>| !row_complete(r));
        }
        let mut y: i16 = self.graphics.buf.dimensions().1 as i16 - 1;
        while y >= 0
            invariant
                self.layout_ok(),
                -1 <= y < 20,
                rows(self.graphics.buf@).len() == 20,
                cleared(rows(self.graphics.buf@), 10) == cleared(rs0, 10),
                forall|r: int| y < r < 20 ==> !row_complete(#[trigger] rows(self.graphics.buf@)[r]),
                0 <= complete_count(rows(self.graphics.buf@)) <= k0,
                self.score == score_plus(
                    old(self).points_scored(),
                    k0 - complete_count(rows(self.graphics.buf@)),
                ),
                self.fall_delay == delay_after(
                    old(self).delay(),
                    old(self).points_scored(),
                    (k0 - complete_count(rows(self.graphics.buf@))) as nat,
                ),
                self.fall_delay >= 1,
                k0 - complete_count(rows(self.graphics.buf@)) > 0 ==> self.status() == Some(
                    "Score: "@ + decimal(self.score as nat),
                ),
                k0 - complete_count(rows(self.graphics.buf@)) == 0 ==> self.graphics.side_panel == old(self).graphics.side_panel,
                self.graphics.title == old(self).graphics.title,
                self.falling == old(self).falling,
                self.upcoming == old(self).upcoming,
                self.holding_down == old(self).holding_down,
                self.frame == old(self).frame,
            decreases y + 1 + complete_count(rows(self.graphics.buf@)),
        {
            if row_is_complete(&self.graphics.buf, y) {
                let ghost g = self.graphics.buf@;
                if self.score < u32::MAX {
                    self.score = self.score + 1;
                }
                self.graphics.set_panel_item(0, PanelItem::TextItem { text: labelled("Score: ", self.score) });
                if self.score % 2 == 0 {
                    self.fall_delay = if self.fall_delay - 1 < 1 {
                        1
                    } else {
                        self.fall_delay - 1
                    };
                }
                drop_rows_onto(&mut self.graphics.buf, y);
                proof {
                    assert(rows(g)[y as int] == row(g, y as int));
                    lemma_dropped_rows(g, self.graphics.buf@, y as int);
                    lemma_shift_keeps_cleared(rows(g), y as int, 10);
                    let rs = rows(self.graphics.buf@);
                    rs.lemma_filter_len(|r: Seq<Cell>| !row_complete(r));
                    assert forall|r: int| y < r < 20 implies !row_complete(#[trigger] rows(self.graphics.buf@)[r]) by {
                        assert(rows(self.graphics.buf@)[r] == rows(g)[r]);
                    }
                }
            } else {
                assert(rows(self.graphics.buf@)[y as int] == row(self.graphics.buf@, y as int));
                y = y - 1;
            }
        }
        proof {
            let rs = rows(self.graphics.buf@);
            lemma_filter_all(rs);
            assert(blank_rows(0, 10) + rs =~= rs);
        }
    }

    /// Shows `shape` in `buf`, the preview of the next piece.
    fn render_upcoming_buf(shape: Shape, buf: &mut GraphicsBuf)
        requires
            preview_ok(old(buf)@),
        ensures
            previews(final(buf)@, shape),
    {
        let n = buf.dimensions().0 as usize * buf.dimensions().1 as usize;
        let mut i: usize = 0;
        while i < n
            invariant
                preview_ok(buf@),
                n == 8,
                i <= n,
                forall|k: int| 0 <= k < i ==> buf@.cells[k] == Cell::Blank,
            decreases n - i,
        {
            buf.set_by_index(i, Cell::Blank);
            i = i + 1;
        }
        let tetromino = Tetromino::in_upcoming_hint(shape);
        proof {
            lemma_hint_piece_in_preview(shape);
        }
        let bs = tetromino.blocks();
        let ghost blank = buf@;
        paint(buf, bs, Cell::Colored(tetromino.color()));
        proof {
            assert(points(bs@) =~= blocks_of(tetromino));
            assert forall|x: int, y: int| buf@.in_bounds(x, y) implies #[trigger] blank.cell(x, y) == Some(Cell::Blank) by {
                assert(0 <= y * 4 + x < 8) by (nonlinear_arith)
                    requires
                        0 <= x < 4,
                        0 <= y < 2,
                ;
            }
        }
    }

    /// Paints `next` on the board, which must hold it.
    fn paint_piece(&mut self, next: Tetromino)
        requires
            old(self).layout_ok(),
            origin_ok(next),
            forall|i: int| 0 <= i < 4 ==> old(self).board().in_bounds(#[trigger] blocks_of(next)[i].0, blocks_of(next)[i].1),
        ensures
            final(self).layout_ok(),
            forall|x: int, y: int|
                #[trigger] final(self).board().cell(x, y) == if covers(blocks_of(next), x, y) {
                    Some(Cell::Colored(shape_color(next.shape)))
                } else {
                    old(self).board().cell(x, y)
                },
            placed(final(self).board(), next),
            final(self).graphics.side_panel == old(self).graphics.side_panel,
            final(self).falling == old(self).falling,
            final(self).upcoming == old(self).upcoming,
            final(self).holding_down == old(self).holding_down,
            final(self).frame == old(self).frame,
            final(self).fall_delay == old(self).fall_delay,
            final(self).score == old(self).score,
            final(self).graphics.title == old(self).graphics.title,
    {
        let bs = next.blocks();
        assert forall|i: int| 0 <= i < 4 implies self.graphics.buf@.in_bounds(
            #[trigger] bs@[i].0 as int,
            bs@[i].1 as int,
        ) by {
            assert((bs@[i].0 as int, bs@[i].1 as int) == blocks_of(next)[i]);
        }
        paint(&mut self.graphics.buf, bs, Cell::Colored(next.color()));
        assert(points(bs@) =~= blocks_of(next));
    }

    /// Puts `shape` in the preview of the side panel.
    fn show_upcoming(&mut self, shape: Shape)
        requires
            old(self).layout_ok(),
        ensures
            final(self).layout_ok(),
            panel_previews(final(self).graphics.side_panel, shape),
            final(self).status() == old(self).status(),
            final(self).graphics.buf == old(self).graphics.buf,
            final(self).falling == old(self).falling,
            final(self).upcoming == old(self).upcoming,
            final(self).holding_down == old(self).holding_down,
            final(self).frame == old(self).frame,
            final(self).fall_delay == old(self).fall_delay,
            final(self).score == old(self).score,
            final(self).graphics.title == old(self).graphics.title,
    {
        match &mut self.graphics.side_panel {
            Some(panel) => {
                let buf = panel.unwrap_graphics_item_mut(2);
                Self::render_upcoming_buf(shape, buf);
            },
            None => {},
        }
    }

    /// A new game: the first piece at the top and the next one in the preview.
    pub fn new() -> (r: (Self, RunConfig))
        ensures
            r.0.valid(),
            r.0.piece() matches Some(t) && t == top_piece(t.shape) && forall|x: int, y: int|
                r.0.board().in_bounds(x, y) ==> #[trigger] r.0.board().cell(x, y) == Some(
                    if covers(blocks_of(t), x, y) {
                        Cell::Colored(shape_color(t.shape))
                    } else {
                        Cell::Blank
                    },
                ),
            r.0.points_scored() == 0,
            r.0.delay() == 15,
            r.0.frames() == 0,
            !r.0.held(),
            panel_previews(r.0.panel(), r.0.next_shape()),
            r.0.panel() matches Some(p) && p.items@.len() == 4 && p.items@[0] is TextItem
                && p.items@[0]->TextItem_text@ == "Score: "@ + decimal(0) && p.items@[1] is TextItem
                && p.items@[1]->TextItem_text@ == "Next:"@ && p.items@[3] is TextItem
                && p.items@[3]->TextItem_text@ == "Controls:\n--------\nA: move left\nD: move right\nW: rotate\nS: fall faster\n"@,
            r.0.title() == "Tetris"@,
            r.1.frame_rate == 30,
    {
        let mut buf = GraphicsBuf::new((10, 20));
        let falling = Tetromino::at_top(generate_next());
        proof {
            lemma_top_piece_on_board(falling.shape);
        }
        let bs = falling.blocks();
        paint(&mut buf, bs, Cell::Colored(falling.color()));
        let help_text = "Controls:\n--------\nA: move left\nD: move right\nW: rotate\nS: fall faster\n".to_string();
        let score: u32 = 0;
        let upcoming = generate_next();
        let mut upcoming_buf = GraphicsBuf::new((4, 2));
        Self::render_upcoming_buf(upcoming, &mut upcoming_buf);
        let graphics = Graphics::new(
            "Tetris".to_string(),
            Some(
                SidePanel {
                    items: vec![
                        PanelItem::TextItem { text: labelled("Score: ", score) },
                        PanelItem::TextItem { text: "Next:".to_string() },
                        PanelItem::GraphicsItem { buf: upcoming_buf },
                        PanelItem::TextItem { text: help_text },
                    ],
                },
            ),
            buf,
        );
        let this = Self {
            graphics,
            falling: Some(falling),
            upcoming,
            holding_down: false,
            frame: 0,
            fall_delay: 15,
            score,
        };
        proof {
            assert(points(bs@) =~= blocks_of(falling));
            assert(this.graphics.side_panel->Some_0.items@[2] == PanelItem::GraphicsItem { buf: upcoming_buf });
        }
        (this, RunConfig { frame_rate: 30 })
    }

    /// One frame, with `next_shape` as the shape that follows the upcoming
    /// one should the piece land. Nothing happens once the game is over.
    /// Otherwise the frame is counted, and unless the piece is held down only
    /// one frame in `delay()` lets it fall. A piece that cannot fall lands
    /// (see `land`).
    pub fn advance(&mut self, next_shape: Shape)
        requires
            old(self).valid(),
        ensures
            final(self).valid(),
            advanced(*old(self), *final(self), next_shape),
    {
        if self.falling.is_none() {
            return;
        }
        self.frame = if self.frame == u32::MAX { 0 } else { self.frame + 1 };
        if !self.holding_down && self.frame % self.fall_delay != 0 {
            return;
        }
        if !self.try_move(Direction::Down) {
            self.land(next_shape);
        }
    }

    /// The falling piece has landed: clears the complete rows, brings in the
    /// upcoming piece, and ends the game if it has no room.
    pub fn land(&mut self, next_shape: Shape)
        requires
            old(self).valid(),
        ensures
            final(self).valid(),
            landed(*old(self), *final(self), next_shape),
            final(self).frames() == old(self).frames(),
            final(self).held() == old(self).held(),
    {
        self.falling = None;
        self.remove_any_complete_rows();
        let ghost cleared_board = self.graphics.buf@;
        let next = Tetromino::at_top(self.upcoming);
        proof {
            lemma_top_piece_on_board(next.shape);
        }
        self.upcoming = next_shape;
        self.show_upcoming(next_shape);
        let game_over = self.would_collide(next);
        self.paint_piece(next);
        proof {
            let after = cleared(rows(old(self).board()), 10);
            assert forall|x: int, y: int| cleared_board.in_bounds(x, y) implies cleared_board.cell(x, y) == Some(#[trigger] after[y][x]) by {
                assert(rows(cleared_board)[y][x] == after[y][x]);
            }
            assert forall|i: int| 0 <= i < 4 implies (#[trigger] after[blocks_of(next)[i].1][blocks_of(next)[i].0] == Cell::Blank
                <==> !hit(cleared_board, None, blocks_of(next)[i])) by {
                let b = blocks_of(next)[i];
                assert(cleared_board.in_bounds(b.0, b.1));
                assert(rows(cleared_board)[b.1][b.0] == after[b.1][b.0]);
            }
            assert forall|x: int, y: int| #[trigger] self.board().in_bounds(x, y) implies self.board().cell(x, y) == Some(
                    if covers(blocks_of(next), x, y) {
                        Cell::Colored(shape_color(next.shape))
                    } else {
                        after[y][x]
                    },
                ) by {
                assert(rows(cleared_board)[y][x] == after[y][x]);
            }
        }
        if game_over {
            self.graphics.set_panel_item(0, PanelItem::TextItem { text: labelled("Game over.\nScore: ", self.score) });
            return;
        }
        self.falling = Some(next);
    }

    /// The number of rows cleared so far.
    pub fn score(&self) -> (r: u32)
        ensures
            r == self.points_scored(),
    {
        self.score
    }

    /// Whether the game is over.
    pub fn is_over(&self) -> (r: bool)
        ensures
            r == self.piece() is None,
    {
        self.falling.is_none()
    }

    /// The falling piece, if the game is not over.
    pub fn falling_piece(&self) -> (r: Option<Tetromino>)
        ensures
            r == self.piece(),
    {
        self.falling
    }
}

impl App for Tetris {
    open spec fn valid(&self) -> bool {
        Tetris::valid(self)
    }

    /// One frame, the shape after the upcoming one drawn at random.
    fn run_frame(&mut self)
        ensures
            exists|s: Shape| #[trigger] advanced(*old(self), *final(self), s),
    {
        let next_shape = generate_next();
        self.advance(next_shape);
        assert(advanced(*old(self), *self, next_shape));
    }

    fn handle_pressed_key(&mut self, key: char)
        ensures
            pressed(*old(self), *final(self), key),
    {
        if self.falling.is_none() {
            return;
        }
        if key == 'a' {
            self.try_move(Direction::Left);
        } else if key == 'd' {
            self.try_move(Direction::Right);
        } else if key == 'w' {
            self.rotate_if_possible();
        } else if key == 's' {
            let was_already = self.holding_down;
            self.holding_down = true;
            if !was_already {
                let ghost mid = *self;
                self.run_frame();
                proof {
                    let s = choose|s: Shape| #[trigger] advanced(mid, *self, s);
                    assert(advanced_with(*old(self), *self, s, true));
                }
            }
        }
    }

    /// Releasing 's' lets the piece fall at its own pace again.
    fn handle_released_key(&mut self, key: char)
        ensures
            key == 's' ==> same_but_timing(*old(self), *final(self)) && final(self).frames() == old(
                self,
            ).frames() && !final(self).held(),
            key != 's' ==> *final(self) == *old(self),
    {
        if key == 's' {
            self.holding_down = false;
        }
    }

    fn graphics(&self) -> (r: &Graphics)
        ensures
            r.buf@ == self.board(),
            r.side_panel == self.panel(),
            r.title@ == self.title(),
    {
        &self.graphics
    }
}

} // verus!
