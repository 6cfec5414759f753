use vstd::prelude::*;

verus! {

/// A position on a grid: column first, then row.
pub type Point = (i16, i16);

/// An RGB color.
pub type Color = (u8, u8, u8);

#[derive(Debug, Copy, Clone, PartialEq, Eq, Structural)]
pub enum Direction {
    Up,
    Left,
    Down,
    Right,
}

/// The unit offset of a direction; rows grow downwards.
pub open spec fn offset(direction: Direction) -> (int, int) {
    match direction {
        Direction::Up => (0, -1),
        Direction::Left => (-1, 0),
        Direction::Down => (0, 1),
        Direction::Right => (1, 0),
    }
}

/// The neighbour of `point` one step in `direction`.
pub fn translated(point: Point, direction: Direction) -> (r: Point)
    requires
        i16::MIN < point.0 < i16::MAX,
        i16::MIN < point.1 < i16::MAX,
    ensures
        r.0 == point.0 + offset(direction).0,
        r.1 == point.1 + offset(direction).1,
{
    let (dx, dy): (i16, i16) = match direction {
        Direction::Up => (0, -1),
        Direction::Left => (-1, 0),
        Direction::Down => (0, 1),
        Direction::Right => (1, 0),
    };
    (point.0 + dx, point.1 + dy)
}

#[derive(Debug, Copy, Clone)]
pub enum Cell {
    Blank,
    Colored(Color),
}

impl PartialEq for Cell {
    fn eq(&self, other: &Cell) -> (r: bool)
        ensures
            r == (*self == *other),
    {
        match (self, other) {
            (Cell::Blank, Cell::Blank) => true,
            (Cell::Colored(a), Cell::Colored(b)) => a.0 == b.0 && a.1 == b.1 && a.2 == b.2,
            _ => false,
        }
    }
}

impl vstd::std_specs::cmp::PartialEqSpecImpl for Cell {
    open spec fn obeys_eq_spec() -> bool {
        true
    }

    open spec fn eq_spec(&self, other: &Cell) -> bool {
        *self == *other
    }
}

impl Eq for Cell {
}

impl Default for Cell {
    fn default() -> (r: Self)
        ensures
            r == Cell::Blank,
    {
        Cell::Blank
    }
}

impl Cell {
    /// A white cell.
    pub fn filled() -> (r: Self)
        ensures
            r == Cell::Colored((255, 255, 255)),
    {
        Cell::Colored((255, 255, 255))
    }
}

proof fn lemma_index_in_range(w: int, h: int, x: int, y: int)
    requires
        0 <= x < w,
        0 <= y < h,
    ensures
        0 <= y * w + x < w * h,
{
    assert(0 <= y * w) by (nonlinear_arith)
        requires
            0 <= y,
            0 <= w,
    ;
    assert(y * w + w <= h * w) by (nonlinear_arith)
        requires
            y + 1 <= h,
            0 <= w,
    ;
    assert(h * w == w * h) by (nonlinear_arith);
}

proof fn lemma_area_bound(w: int, h: int)
    requires
        0 <= w <= u8::MAX,
        0 <= h <= u8::MAX,
    ensures
        0 <= w * h <= 65025,
{
    assert(0 <= w * h <= 65025) by (nonlinear_arith)
        requires
            0 <= w <= 255,
            0 <= h <= 255,
    ;
}

proof fn lemma_index_unique(w: int, x1: int, y1: int, x2: int, y2: int)
    requires
        0 <= x1 < w,
        0 <= x2 < w,
        0 <= y1,
        0 <= y2,
        y1 * w + x1 == y2 * w + x2,
    ensures
        x1 == x2,
        y1 == y2,
{
    if y1 < y2 {
        assert(y1 * w + w <= y2 * w) by (nonlinear_arith)
            requires
                y1 + 1 <= y2,
                0 <= w,
        ;
    } else if y2 < y1 {
        assert(y2 * w + w <= y1 * w) by (nonlinear_arith)
            requires
                y2 + 1 <= y1,
                0 <= w,
        ;
    }
}

/// The contents of a buffer: its width, its height and its cells row by row.
pub struct GridView {
    pub width: int,
    pub height: int,
    pub cells: Seq<Cell>,
}

impl GridView {
    pub open spec fn wf(self) -> bool {
        &&& 0 <= self.width <= u8::MAX
        &&& 0 <= self.height <= u8::MAX
        &&& self.cells.len() == self.width * self.height
    }

    pub open spec fn in_bounds(self, x: int, y: int) -> bool {
        0 <= x < self.width && 0 <= y < self.height
    }

    /// The position in `cells` of the cell at column `x`, row `y`.
    pub open spec fn index_of(self, x: int, y: int) -> int {
        y * self.width + x
    }

    /// The cell at column `x`, row `y`; `None` outside the buffer.
    pub open spec fn cell(self, x: int, y: int) -> Option<Cell> {
        if self.in_bounds(x, y) {
            Some(self.cells[self.index_of(x, y)])
        } else {
            None
        }
    }

    /// Whether the cell at `(x, y)` lies in the buffer and is blank.
    pub open spec fn is_blank(self, x: int, y: int) -> bool {
        self.cell(x, y) == Some(Cell::Blank)
    }

    /// The same contents with the cell at `(x, y)` replaced by `value`.
    pub open spec fn with_cell(self, x: int, y: int, value: Cell) -> GridView {
        if self.in_bounds(x, y) {
            GridView { cells: self.cells.update(self.index_of(x, y), value), ..self }
        } else {
            self
        }
    }
}

/// Replacing one cell changes that cell and no other.
pub proof fn lemma_with_cell(g: GridView, x: int, y: int, value: Cell)
    requires
        g.wf(),
    ensures
        g.with_cell(x, y, value).wf(),
        g.with_cell(x, y, value).width == g.width,
        g.with_cell(x, y, value).height == g.height,
        forall|i: int, j: int|
            #[trigger] g.with_cell(x, y, value).cell(i, j) == if i == x && j == y && g.in_bounds(
                x,
                y,
            ) {
                Some(value)
            } else {
                g.cell(i, j)
            },
{
    let h = g.with_cell(x, y, value);
    if g.in_bounds(x, y) {
        lemma_index_in_range(g.width, g.height, x, y);
    }
    assert forall|i: int, j: int|
        #[trigger] h.cell(i, j) == if i == x && j == y && g.in_bounds(x, y) {
            Some(value)
        } else {
            g.cell(i, j)
        } by {
        if g.in_bounds(i, j) && g.in_bounds(x, y) {
            lemma_index_in_range(g.width, g.height, i, j);
            lemma_index_in_range(g.width, g.height, x, y);
            if g.index_of(i, j) == g.index_of(x, y) {
                lemma_index_unique(g.width, i, j, x, y);
            }
        }
    }
}

/// A rectangular buffer of cells, stored row by row.
#[derive(Debug)]
pub struct GraphicsBuf {
    buf: Vec<Cell>,
    dimensions: (u8, u8),
}

impl View for GraphicsBuf {
    type V = GridView;

    closed spec fn view(&self) -> GridView {
        GridView {
            width: self.dimensions.0 as int,
            height: self.dimensions.1 as int,
            cells: self.buf@,
        }
    }
}

impl GraphicsBuf {
    pub open spec fn wf(&self) -> bool {
        self@.wf()
    }

    /// A blank buffer of the given width and height.
    pub fn new(dimensions: (u8, u8)) -> (r: Self)
        ensures
            r.wf(),
            r@.width == dimensions.0,
            r@.height == dimensions.1,
            forall|x: int, y: int| r@.in_bounds(x, y) ==> #[trigger] r@.cell(x, y) == Some(Cell::Blank),
    {
        proof {
            lemma_area_bound(dimensions.0 as int, dimensions.1 as int);
        }
        let n: usize = dimensions.0 as usize * dimensions.1 as usize;
        let mut buf: Vec<Cell> = Vec::new();
        let mut i: usize = 0;
        while i < n
            invariant
                i <= n,
                buf@.len() == i,
                forall|k: int| 0 <= k < i ==> buf@[k] == Cell::Blank,
            decreases n - i,
        {
            buf.push(Cell::Blank);
            i = i + 1;
        }
        let r = GraphicsBuf { buf, dimensions };
        assert forall|x: int, y: int| r@.in_bounds(x, y) implies #[trigger] r@.cell(x, y) == Some(
            Cell::Blank,
        ) by {
            lemma_index_in_range(r@.width, r@.height, x, y);
        }
        r
    }

    pub fn dimensions(&self) -> (r: (u8, u8))
        ensures
            r.0 == self@.width,
            r.1 == self@.height,
    {
        self.dimensions
    }

    fn buf_index(&self, pos: Point) -> (r: Option<usize>)
        requires
            self.wf(),
        ensures
            r is Some <==> self@.in_bounds(pos.0 as int, pos.1 as int),
            r matches Some(i) ==> i == self@.index_of(pos.0 as int, pos.1 as int) && i
                < self@.cells.len(),
    {
        if pos.0 >= 0 && pos.1 >= 0 && pos.0 < self.dimensions.0 as i16 && pos.1
            < self.dimensions.1 as i16 {
            proof {
                lemma_index_in_range(self@.width, self@.height, pos.0 as int, pos.1 as int);
                lemma_area_bound(self@.width, self@.height);
                assert(0 <= (pos.1 as int) * self@.width) by (nonlinear_arith)
                    requires
                        0 <= pos.1,
                        0 <= self@.width,
                ;
            }
            Some(pos.1 as usize * self.dimensions.0 as usize + pos.0 as usize)
        } else {
            None
        }
    }

    /// Paints the cell at `point`, which must lie in the buffer.
    pub fn set(&mut self, point: Point, value: Cell)
        requires
            old(self).wf(),
            old(self)@.in_bounds(point.0 as int, point.1 as int),
        ensures
            final(self)@ == old(self)@.with_cell(point.0 as int, point.1 as int, value),
            final(self).wf(),
    {
        let i = self.buf_index(point).unwrap();
        self.buf.set(i, value);
        proof {
            lemma_with_cell(old(self)@, point.0 as int, point.1 as int, value);
            assert(self@.cells =~= old(self)@.with_cell(point.0 as int, point.1 as int, value).cells);
        }
    }

    /// Paints the cell at position `index` of the row-by-row order.
    pub fn set_by_index(&mut self, index: usize, value: Cell)
        requires
            index < old(self)@.cells.len(),
        ensures
            final(self)@ == (GridView { cells: old(self)@.cells.update(index as int, value), ..old(self)@ }),
    {
        self.buf.set(index, value);
    }

    /// The cell at `point`, or `None` outside the buffer.
    pub fn get(&self, point: Point) -> (r: Option<Cell>)
        requires
            self.wf(),
        ensures
            r == self@.cell(point.0 as int, point.1 as int),
    {
        match self.buf_index(point) {
            Some(i) => Some(self.buf[i]),
            None => None,
        }
    }

    /// The cell at position `index` of the row-by-row order.
    pub fn get_by_index(&self, index: usize) -> (r: Cell)
        requires
            index < self@.cells.len(),
        ensures
            r == self@.cells[index as int],
    {
        self.buf[index]
    }
}

} // verus!
