use vstd::prelude::*;
use crate::apps::{App, RunConfig};
use crate::graphics::Graphics;
use crate::grid::{Cell, GraphicsBuf, GridView};
use crate::random::random_below;

verus! {

/// `after` is `before` with the blank cell listed at `i` filled in white and
/// taken off the list, the last entry taking its place.
pub open spec fn filled(before: Noise, after: Noise, i: int) -> bool {
    &&& after.board().cells == before.board().cells.update(
        before.blanks()[i] as int,
        Cell::Colored((255, 255, 255)),
    )
    &&& after.board().width == before.board().width
    &&& after.board().height == before.board().height
    &&& after.blanks() == before.blanks().update(i, before.blanks().last()).drop_last()
    &&& after.title() == if after.blanks().len() == 0 {
        "The end."@
    } else {
        before.title()
    }
}

/// Fills a small board with white cells, one random blank cell per frame.
pub struct Noise {
    graphics: Graphics,
    /// The positions, in the row-by-row order, of the cells still blank.
    empty_indices: Vec<usize>,
}

impl Noise {
    /// The board.
    pub closed spec fn board(&self) -> GridView {
        self.graphics.buf@
    }

    /// The positions, in the row-by-row order, of the cells still blank.
    pub closed spec fn blanks(&self) -> Seq<usize> {
        self.empty_indices@
    }

    /// The title shown above the board.
    pub closed spec fn title(&self) -> Seq<char> {
        self.graphics.title@
    }

    /// Whether there is a side panel.
    pub closed spec fn has_panel(&self) -> bool {
        self.graphics.side_panel is Some
    }

    pub open spec fn well_formed(&self) -> bool {
        &&& self.board().wf()
        &&& forall|i: int|
            0 <= i < self.blanks().len() ==> #[trigger] self.blanks()[i] < self.board().cells.len()
                && self.board().cells[self.blanks()[i] as int] == Cell::Blank
        &&& forall|i: int, j: int|
            0 <= i < self.blanks().len() && 0 <= j < self.blanks().len() && i != j ==> #[trigger] self.blanks()[i]
                != #[trigger] self.blanks()[j]
        &&& forall|k: int|
            0 <= k < self.board().cells.len() && #[trigger] self.board().cells[k] == Cell::Blank
                ==> self.blanks().contains(k as usize)
    }

    /// A blank board of ten columns and five rows.
    pub fn new() -> (r: (Self, RunConfig))
        ensures
            r.0.well_formed(),
            r.0.board().width == 10 && r.0.board().height == 5,
            r.0.blanks().len() == 50,
            forall|i: int| 0 <= i < 50 ==> #[trigger] r.0.blanks()[i] == i,
            r.0.title() == "Noise"@,
            !r.0.has_panel(),
            r.1.frame_rate == 15,
    {
        let buf = GraphicsBuf::new((10, 5));
        let mut empty_indices: Vec<usize> = Vec::new();
        let mut i: usize = 0;
        while i < 50
            invariant
                i <= 50,
                empty_indices@.len() == i,
                forall|k: int| 0 <= k < i ==> #[trigger] empty_indices@[k] == k,
            decreases 50 - i,
        {
            empty_indices.push(i);
            i = i + 1;
        }
        assert forall|k: int| 0 <= k < 50 implies buf@.cells[k] == Cell::Blank by {
            assert(buf@.cell(k % 10, k / 10) == Some(Cell::Blank));
        }
        assert forall|k: int| 0 <= k < 50 && #[trigger] buf@.cells[k] == Cell::Blank implies empty_indices@.contains(
            k as usize,
        ) by {
            assert(empty_indices@[k] == k);
        }
        let graphics = Graphics::new("Noise".to_string(), None, buf);
        (Self { graphics, empty_indices }, RunConfig { frame_rate: 15 })
    }

    /// Fills the blank cell listed at `i` and takes it off the list, the last
    /// entry taking its place; the title turns to "The end." when none is
    /// left.
    pub fn fill(&mut self, i: usize)
        requires
            old(self).well_formed(),
            i < old(self).blanks().len(),
        ensures
            final(self).well_formed(),
            filled(*old(self), *final(self), i as int),
            final(self).has_panel() == old(self).has_panel(),
    {
        let buf_index = self.empty_indices[i];
        self.graphics.buf.set_by_index(buf_index, Cell::filled());
        self.empty_indices.swap_remove(i);
        if self.empty_indices.len() == 0 {
            self.graphics.title = "The end.".to_string();
        }
        let ghost last = old(self).blanks().len() - 1;
        assert forall|k: int| 0 <= k < self.blanks().len() implies #[trigger] self.blanks()[k]
            < self.board().cells.len() && self.board().cells[self.blanks()[k] as int] == Cell::Blank by {
            if k == i {
                assert(self.blanks()[k] == old(self).blanks()[last]);
                assert(last != i);
            } else {
                assert(self.blanks()[k] == old(self).blanks()[k]);
            }
        }
        assert forall|j: int, k: int|
            0 <= j < self.blanks().len() && 0 <= k < self.blanks().len() && j != k implies #[trigger] self.blanks()[j]
            != #[trigger] self.blanks()[k] by {
            let oj = if j == i { last } else { j };
            let ok = if k == i { last } else { k };
            assert(self.blanks()[j] == old(self).blanks()[oj]);
            assert(self.blanks()[k] == old(self).blanks()[ok]);
        }
        assert forall|k: int|
            0 <= k < self.board().cells.len() && #[trigger] self.board().cells[k] == Cell::Blank
                implies self.blanks().contains(k as usize) by {
            let b = old(self).blanks()[i as int];
            let w = old(self).board().width;
            let h = old(self).board().height;
            assert(w * h <= 65025) by (nonlinear_arith)
                requires
                    0 <= w <= 255,
                    0 <= h <= 255,
            ;
            assert((k as usize) as int == k);
            assert(self.board().cells[b as int] == Cell::Colored((255, 255, 255)));
            assert(k != b as int);
            assert(old(self).board().cells[k] == Cell::Blank);
            let j = choose|j: int| 0 <= j < old(self).blanks().len() && old(self).blanks()[j] == k as usize;
            assert(j != i);
            if j == last {
                assert(self.blanks()[i as int] == k as usize);
            } else {
                assert(self.blanks()[j] == k as usize);
            }
        }
    }
}

impl App for Noise {
    open spec fn valid(&self) -> bool {
        self.well_formed()
    }

    /// Fills one listed blank cell picked at random, if any is left.
    fn run_frame(&mut self)
        ensures
            old(self).blanks().len() == 0 ==> *final(self) == *old(self),
            old(self).blanks().len() > 0 ==> exists|i: int|
                0 <= i < old(self).blanks().len() && #[trigger] filled(*old(self), *final(self), i),
    {
        if self.empty_indices.len() > 0 {
            let i = random_below(self.empty_indices.len());
            self.fill(i);
            assert(filled(*old(self), *self, i as int));
        }
    }

    fn handle_pressed_key(&mut self, key: char)
        ensures
            *final(self) == *old(self),
    {
    }

    fn handle_released_key(&mut self, key: char)
        ensures
            *final(self) == *old(self),
    {
    }

    fn graphics(&self) -> (r: &Graphics)
        ensures
            r.buf@ == self.board(),
            r.title@ == self.title(),
            (r.side_panel is Some) == self.has_panel(),
    {
        &self.graphics
    }
}

} // verus!
