use vstd::prelude::*;
use crate::apps::{App, RunConfig};
use crate::graphics::{Graphics, PanelItem, SidePanel};
use crate::grid::{Cell, GraphicsBuf, GridView, Point, lemma_with_cell};

verus! {

/// 1 when the cell at `(x, y)` is a white, living cell, else 0.
pub open spec fn alive_at(g: GridView, x: int, y: int) -> int {
    if g.cell(x, y) == Some(Cell::Colored((255, 255, 255))) {
        1
    } else {
        0
    }
}

/// The number of living cells among the eight around `(x, y)`.
pub open spec fn live_neighbors(g: GridView, x: int, y: int) -> int {
    alive_at(g, x - 1, y - 1) + alive_at(g, x, y - 1) + alive_at(g, x + 1, y - 1) + alive_at(g, x - 1, y)
        + alive_at(g, x + 1, y) + alive_at(g, x - 1, y + 1) + alive_at(g, x, y + 1) + alive_at(g, x + 1, y + 1)
}

/// Whether the cell at `(x, y)` lives in the next generation: a living
/// (painted) cell survives with two or three living neighbours; a dead one is
/// born with exactly three.
pub open spec fn lives_next(g: GridView, x: int, y: int) -> bool {
    if g.cell(x, y) != Some(Cell::Blank) {
        live_neighbors(g, x, y) == 2 || live_neighbors(g, x, y) == 3
    } else {
        live_neighbors(g, x, y) == 3
    }
}

/// The next generation of `g`, cell by cell.
pub open spec fn next_generation(g: GridView, g2: GridView) -> bool {
    &&& g2.wf()
    &&& g2.width == g.width
    &&& g2.height == g.height
    &&& forall|x: int, y: int|
        g.in_bounds(x, y) ==> #[trigger] g2.cell(x, y) == Some(
            if lives_next(g, x, y) {
                Cell::Colored((255, 255, 255))
            } else {
                Cell::Blank
            },
        )
}

/// Conway's game of life, computed into a second buffer that then changes
/// places with the shown one.
pub struct Conway {
    dimensions: (u8, u8),
    graphics: Graphics,
    tmp_buf: GraphicsBuf,
}

impl Conway {
    /// The cells shown.
    pub closed spec fn board(&self) -> GridView {
        self.graphics.buf@
    }

    /// The buffer that the next generation is computed into.
    pub closed spec fn spare(&self) -> GridView {
        self.tmp_buf@
    }

    pub closed spec fn buffers_ok(&self) -> bool {
        &&& self.graphics.buf.wf()
        &&& self.tmp_buf.wf()
        &&& self.graphics.buf@.width == self.dimensions.0
        &&& self.graphics.buf@.height == self.dimensions.1
        &&& self.tmp_buf@.width == self.dimensions.0
        &&& self.tmp_buf@.height == self.dimensions.1
    }

    /// A board of `dimensions` where the cells `live_cells`, moved by
    /// `cells_offset`, live.
    pub fn new(dimensions: (u8, u8), cells_offset: (i16, i16), live_cells: &[(i16, i16)]) -> (r: (
        Self,
        RunConfig,
    ))
        requires
            forall|i: int|
                0 <= i < live_cells@.len() ==> 0 <= #[trigger] live_cells@[i].0 + cells_offset.0
                    < dimensions.0 && 0 <= live_cells@[i].1 + cells_offset.1 < dimensions.1,
        ensures
            r.0.valid(),
            r.0.spare().width == dimensions.0,
            r.0.spare().height == dimensions.1,
            r.0.board().width == dimensions.0,
            r.0.board().height == dimensions.1,
            forall|x: int, y: int|
                r.0.board().in_bounds(x, y) ==> #[trigger] r.0.board().cell(x, y) == Some(
                    if exists|i: int|
                        0 <= i < live_cells@.len() && #[trigger] live_cells@[i].0 + cells_offset.0 == x
                            && live_cells@[i].1 + cells_offset.1 == y {
                        Cell::Colored((255, 255, 255))
                    } else {
                        Cell::Blank
                    },
                ),
            forall|x: int, y: int|
                r.0.spare().in_bounds(x, y) ==> #[trigger] r.0.spare().cell(x, y) == Some(Cell::Blank),
            r.1.frame_rate == 10,
    {
        let mut buf0 = GraphicsBuf::new(dimensions);
        let mut k: usize = 0;
        while k < live_cells.len()
            invariant
                k <= live_cells@.len(),
                buf0.wf(),
                buf0@.width == dimensions.0,
                buf0@.height == dimensions.1,
                forall|i: int|
                    0 <= i < live_cells@.len() ==> 0 <= #[trigger] live_cells@[i].0 + cells_offset.0
                        < dimensions.0 && 0 <= live_cells@[i].1 + cells_offset.1 < dimensions.1,
                forall|x: int, y: int|
                    buf0@.in_bounds(x, y) ==> #[trigger] buf0@.cell(x, y) == Some(
                        if exists|i: int|
                            0 <= i < k && #[trigger] live_cells@[i].0 + cells_offset.0 == x
                                && live_cells@[i].1 + cells_offset.1 == y {
                            Cell::Colored((255, 255, 255))
                        } else {
                            Cell::Blank
                        },
                    ),
            decreases live_cells@.len() - k,
        {
            let cell = live_cells[k];
            let at = (cell.0 + cells_offset.0, cell.1 + cells_offset.1);
            proof {
                lemma_with_cell(buf0@, at.0 as int, at.1 as int, Cell::Colored((255, 255, 255)));
            }
            let ghost before = buf0@;
            buf0.set(at, Cell::filled());
            k = k + 1;
            proof {
                assert forall|x: int, y: int| buf0@.in_bounds(x, y) implies #[trigger] buf0@.cell(x, y) == Some(
                    if exists|i: int|
                        0 <= i < k && #[trigger] live_cells@[i].0 + cells_offset.0 == x
                            && live_cells@[i].1 + cells_offset.1 == y {
                        Cell::Colored((255, 255, 255))
                    } else {
                        Cell::Blank
                    },
                ) by {
                    if x == at.0 && y == at.1 {
                        assert(live_cells@[k - 1].0 + cells_offset.0 == x);
                    } else {
                        if exists|i: int|
                            0 <= i < k && #[trigger] live_cells@[i].0 + cells_offset.0 == x
                                && live_cells@[i].1 + cells_offset.1 == y {
                            let i = choose|i: int|
                                0 <= i < k && #[trigger] live_cells@[i].0 + cells_offset.0 == x
                                    && live_cells@[i].1 + cells_offset.1 == y;
                            assert(i < k - 1);
                        }
                    }
                }
            }
        }
        let tmp_buf = GraphicsBuf::new(dimensions);
        let side_panel = Some(
            SidePanel { items: vec![PanelItem::TextItem { text: "Conway's game of life".to_string() }] },
        );
        let graphics = Graphics::new("Conway".to_string(), side_panel, buf0);
        (Self { dimensions, graphics, tmp_buf }, RunConfig { frame_rate: 10 })
    }

    fn alive(&self, x: i16, y: i16) -> (r: u32)
        requires
            self.graphics.buf.wf(),
        ensures
            r == alive_at(self.board(), x as int, y as int),
    {
        match self.graphics.buf.get((x, y)) {
            Some(value) => if value == Cell::filled() {
                1
            } else {
                0
            },
            None => 0,
        }
    }

    /// The number of living cells among the eight around `position`.
    fn count_live_neighbors(&self, position: Point) -> (r: u32)
        requires
            self.graphics.buf.wf(),
            i16::MIN < position.0 < i16::MAX,
            i16::MIN < position.1 < i16::MAX,
        ensures
            r == live_neighbors(self.board(), position.0 as int, position.1 as int),
    {
        let (x, y) = position;
        self.alive(x - 1, y - 1) + self.alive(x, y - 1) + self.alive(x + 1, y - 1) + self.alive(x - 1, y)
            + self.alive(x + 1, y) + self.alive(x - 1, y + 1) + self.alive(x, y + 1) + self.alive(
            x + 1,
            y + 1,
        )
    }

    /// Replaces the board by its next generation.
    pub fn next_generation(&mut self)
        requires
            old(self).buffers_ok(),
        ensures
            final(self).buffers_ok(),
            next_generation(old(self).board(), final(self).board()),
            final(self).spare() == old(self).board(),
    {
        let ghost g = self.graphics.buf@;
        let h = self.dimensions.1;
        let w = self.dimensions.0;
        let mut y: u8 = 0;
        while y < h
            invariant
                self.buffers_ok(),
                self.graphics.buf@ == g,
                h == g.height,
                w == g.width,
                y <= h,
                forall|i: int, j: int|
                    g.in_bounds(i, j) && j < y ==> #[trigger] self.tmp_buf@.cell(i, j) == Some(
                        if lives_next(g, i, j) {
                            Cell::Colored((255, 255, 255))
                        } else {
                            Cell::Blank
                        },
                    ),
            decreases h - y,
        {
            let mut x: u8 = 0;
            while x < w
                invariant
                    self.buffers_ok(),
                    self.graphics.buf@ == g,
                    h == g.height,
                    w == g.width,
                    y < h,
                    x <= w,
                    forall|i: int, j: int|
                        g.in_bounds(i, j) && (j < y || (j == y && i < x)) ==> #[trigger] self.tmp_buf@.cell(
                            i,
                            j,
                        ) == Some(
                            if lives_next(g, i, j) {
                                Cell::Colored((255, 255, 255))
                            } else {
                                Cell::Blank
                            },
                        ),
                decreases w - x,
            {
                let xi = x as i16;
                let yi = y as i16;
                let is_live = self.graphics.buf.get((xi, yi)).unwrap() != Cell::Blank;
                let n = self.count_live_neighbors((xi, yi));
                let value = if is_live {
                    if n == 2 || n == 3 {
                        Cell::filled()
                    } else {
                        Cell::Blank
                    }
                } else {
                    if n == 3 {
                        Cell::filled()
                    } else {
                        Cell::Blank
                    }
                };
                proof {
                    lemma_with_cell(self.tmp_buf@, xi as int, yi as int, value);
                }
                self.tmp_buf.set((xi, yi), value);
                x = x + 1;
            }
            y = y + 1;
        }
        std::mem::swap(&mut self.graphics.buf, &mut self.tmp_buf);
    }
}

impl App for Conway {
    open spec fn valid(&self) -> bool {
        &&& self.buffers_ok()
        &&& self.board().wf()
        &&& self.spare().wf()
        &&& self.spare().width == self.board().width
        &&& self.spare().height == self.board().height
    }

    fn run_frame(&mut self)
        ensures
            next_generation(old(self).board(), final(self).board()),
            final(self).spare() == old(self).board(),
    {
        self.next_generation();
    }

    fn handle_pressed_key(&mut self, key: char)
        ensures
            *final(self) == *old(self),
    {
    }

    fn handle_released_key(&mut self, key: char)
        ensures
            *final(self) == *old(self),
    {
    }

    fn graphics(&self) -> (r: &Graphics)
        ensures
            r.buf@ == self.board(),
    {
        &self.graphics
    }
}

} // verus!
