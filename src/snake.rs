use vstd::prelude::*;
use crate::apps::{App, RunConfig};
use crate::graphics::{Graphics, PanelItem, SidePanel, decimal, labelled};
use crate::grid::{Cell, Direction, GraphicsBuf, GridView, Point, lemma_with_cell, offset, translated};
use crate::random::random_below;

verus! {

/// The cell one step from `p` in `direction`.
pub open spec fn step_from(p: Point, direction: Direction) -> Point {
    ((p.0 + offset(direction).0) as i16, (p.1 + offset(direction).1) as i16)
}

/// Everything but the heading is the same.
pub open spec fn same_but_heading(a: Snake, b: Snake) -> bool {
    &&& b.body() == a.body()
    &&& b.is_alive() == a.is_alive()
    &&& b.food_at() == a.food_at()
    &&& b.points_scored() == a.points_scored()
    &&& b.size() == a.size()
    &&& b.board() == a.board()
    &&& b.panel() == a.panel()
    &&& b.title() == a.title()
}

/// The heading after asking for `direction`: unchanged when that would lead
/// straight back into the cell behind the head.
pub open spec fn turned_to(before: Snake, direction: Direction) -> Direction {
    let b = before.body();
    if b.len() >= 2 && step_from(b.last(), direction) == b[b.len() - 2] {
        before.heading()
    } else {
        direction
    }
}

/// The direction that a key asks for: WASD.
pub open spec fn key_direction(key: char) -> Option<Direction> {
    if key == 'w' {
        Some(Direction::Up)
    } else if key == 'a' {
        Some(Direction::Left)
    } else if key == 's' {
        Some(Direction::Down)
    } else if key == 'd' {
        Some(Direction::Right)
    } else {
        None
    }
}

/// One step of the snake from `before` to `after`. A dead snake stays as it
/// is. Off the field it dies. On the food it grows by the new head, scores,
/// and new food is put on a cell it did not cover. Elsewhere its tail moves
/// on; running into itself kills it. On eating the snake lives on as long as
/// the field had a free cell. The heading, the field size and the title
/// stay; the status shows the score, or the end of the game.
pub open spec fn slithered(before: Snake, after: Snake) -> bool {
    let head = step_from(before.body().last(), before.heading());
    let eats = head == before.food_at();
    let rest = if eats {
        before.body()
    } else {
        before.body().subrange(1, before.body().len() as int)
    };
    &&& after.heading() == before.heading()
    &&& after.size() == before.size()
    &&& after.title() == before.title()
    &&& before.is_alive() && !after.is_alive() ==> after.status() == Some(
        "Game over.\nScore: "@ + decimal(after.points_scored() as nat),
    )
    &&& after.is_alive() && before.on_field(head) && eats ==> after.status() == Some(
        "Score: "@ + decimal(after.points_scored() as nat),
    )
    &&& after.is_alive() && !(before.on_field(head) && eats) ==> after.status() == before.status()
    &&& before.is_alive() && before.on_field(head) && eats && !rest.contains(head) && before.has_free_cell()
        ==> after.is_alive()
    &&& !before.is_alive() ==> after == before
    &&& before.is_alive() ==> {
        &&& !before.on_field(head) ==> !after.is_alive() && after.body() == before.body()
        &&& before.on_field(head) && rest.contains(head) ==> !after.is_alive() && after.body() == rest
        &&& before.on_field(head) && !rest.contains(head) ==> after.body() == rest.push(head)
        &&& before.on_field(head) && !rest.contains(head) && !eats ==> after.is_alive()
        &&& before.on_field(head) && eats ==> after.points_scored() == score_plus_one(before.points_scored())
        &&& before.on_field(head) && eats && after.is_alive() ==> !before.body().contains(after.food_at())
        &&& !(before.on_field(head) && eats) ==> after.points_scored() == before.points_scored()
            && after.food_at() == before.food_at()
    }
}

/// The snake game: the snake moves one cell per frame, grows when it eats,
/// and dies when it leaves the field or runs into itself.
pub struct Snake {
    game_size: (u8, u8),
    alive: bool,
    /// The cells of the snake, tail first, head last.
    snake: Vec<Point>,
    direction: Direction,
    food: Point,
    graphics: Graphics,
    score: u32,
}

impl Snake {
    /// The cells of the snake, tail first, head last.
    pub closed spec fn body(&self) -> Seq<Point> {
        self.snake@
    }

    pub closed spec fn is_alive(&self) -> bool {
        self.alive
    }

    pub closed spec fn heading(&self) -> Direction {
        self.direction
    }

    pub closed spec fn food_at(&self) -> Point {
        self.food
    }

    pub closed spec fn points_scored(&self) -> int {
        self.score as int
    }

    pub closed spec fn size(&self) -> (u8, u8) {
        self.game_size
    }

    /// What the field shows.
    pub closed spec fn board(&self) -> GridView {
        self.graphics.buf@
    }

    /// The side panel.
    pub closed spec fn panel(&self) -> Option<SidePanel> {
        self.graphics.side_panel
    }

    /// The title shown above the field.
    pub closed spec fn title(&self) -> Seq<char> {
        self.graphics.title@
    }

    /// The text of the first item of the side panel: the score.
    pub closed spec fn status(&self) -> Option<Seq<char>> {
        match self.graphics.side_panel {
            Some(p) => match p.items@[0] {
                PanelItem::TextItem { text } => Some(text@),
                _ => None,
            },
            None => None,
        }
    }

    /// The point lies on the field.
    pub open spec fn on_field(&self, p: Point) -> bool {
        0 <= p.0 < self.size().0 && 0 <= p.1 < self.size().1
    }

    /// Some cell of the field is not covered by the snake.
    pub open spec fn has_free_cell(&self) -> bool {
        exists|p: Point| self.on_field(p) && !self.body().contains(p)
    }

    pub closed spec fn layout_ok(&self) -> bool {
        &&& self.graphics.buf.wf()
        &&& self.graphics.buf@.width == self.game_size.0
        &&& self.graphics.buf@.height == self.game_size.1
        &&& self.graphics.side_panel matches Some(p) && p.items@.len() == 2
    }

    pub open spec fn well_formed(&self) -> bool {
        &&& self.layout_ok()
        &&& self.board().wf()
        &&& self.board().width == self.size().0
        &&& self.board().height == self.size().1
        &&& self.body().len() > 0
        &&& forall|i: int| 0 <= i < self.body().len() ==> self.on_field(#[trigger] self.body()[i])
        &&& self.on_field(self.food_at())
    }

    /// A snake of one cell heading right, and food on a free cell.
    pub fn new() -> (r: (Self, RunConfig))
        ensures
            r.0.well_formed(),
            r.0.body() == seq![(1i16, 5i16)],
            r.0.heading() == Direction::Right,
            r.0.size() == (30u8, 20u8),
            r.0.is_alive(),
            r.0.points_scored() == 0,
            !r.0.body().contains(r.0.food_at()),
            r.1.frame_rate == 10,
    {
        let game_size: (u8, u8) = (30, 20);
        let snake_pos: Point = (1, 5);
        let snake = vec![snake_pos];
        let mut buf = GraphicsBuf::new(game_size);
        let direction = Direction::Right;
        buf.set(snake_pos, Cell::Colored((255, 255, 100)));
        let help_text = "Use WASD keys to control the snake!".to_string();
        let score: u32 = 0;
        let graphics = Graphics::new(
            "Snake".to_string(),
            Some(
                SidePanel {
                    items: vec![
                        PanelItem::TextItem { text: labelled("Score: ", score) },
                        PanelItem::TextItem { text: help_text },
                    ],
                },
            ),
            buf,
        );
        let mut this = Self { game_size, alive: true, snake, direction, food: (3, 5), graphics, score };
        match this.pick_new_food_location() {
            Some(food) => {
                this.food = food;
                this.graphics.buf.set(food, Cell::Colored((255, 100, 100)));
            },
            None => {},
        }
        (this, RunConfig { frame_rate: 10 })
    }

    /// Turns the snake, unless the new direction leads straight back into
    /// the cell behind its head.
    pub fn set_direction(&mut self, direction: Direction)
        requires
            old(self).well_formed(),
        ensures
            final(self).well_formed(),
            final(self).heading() == turned_to(*old(self), direction),
            same_but_heading(*old(self), *final(self)),
    {
        let n = self.snake.len();
        if n >= 2 {
            let neck = self.snake[n - 2];
            let head = self.snake[n - 1];
            let next = translated(head, direction);
            if next.0 == neck.0 && next.1 == neck.1 {
                return;
            }
        }
        self.direction = direction;
    }

    /// Whether `point` lies on the field.
    pub fn is_within_game_bounds(&self, point: Point) -> (r: bool)
        ensures
            r == self.on_field(point),
    {
        point.0 >= 0 && point.1 >= 0 && point.0 < self.game_size.0 as i16 && point.1
            < self.game_size.1 as i16
    }

    /// Whether the snake covers `point`.
    fn covers(&self, point: Point) -> (r: bool)
        ensures
            r == self.body().contains(point),
    {
        let mut i: usize = 0;
        while i < self.snake.len()
            invariant
                i <= self.snake@.len(),
                forall|k: int| 0 <= k < i ==> self.snake@[k] != point,
            decreases self.snake@.len() - i,
        {
            if self.snake[i].0 == point.0 && self.snake[i].1 == point.1 {
                assert(self.snake@[i as int] == point);
                return true;
            }
            i = i + 1;
        }
        false
    }

    /// The cells of the field that the snake does not cover, column by column.
    pub fn food_candidates(&self) -> (r: Vec<Point>)
        ensures
            forall|p: Point| #[trigger] r@.contains(p) <==> self.on_field(p) && !self.body().contains(p),
    {
        let mut candidates: Vec<Point> = Vec::new();
        let mut x: u8 = 0;
        while x < self.game_size.0
            invariant
                x <= self.game_size.0,
                forall|p: Point|
                    #[trigger] candidates@.contains(p) <==> (self.on_field(p) && p.0 < x && !self.body().contains(p)),
            decreases self.game_size.0 - x,
        {
            let mut y: u8 = 0;
            while y < self.game_size.1
                invariant
                    x < self.game_size.0,
                    y <= self.game_size.1,
                    forall|p: Point|
                        #[trigger] candidates@.contains(p) <==> (self.on_field(p) && (p.0 < x || (p.0 == x && p.1 < y))
                            && !self.body().contains(p)),
                decreases self.game_size.1 - y,
            {
                let p: Point = (x as i16, y as i16);
                let ghost before = candidates@;
                if !self.covers(p) {
                    candidates.push(p);
                    proof {
                        assert forall|q: Point| candidates@.contains(q) <==> (before.contains(q) || q == p) by {
                            if candidates@.contains(q) {
                                let k = choose|k: int| 0 <= k < candidates@.len() && candidates@[k] == q;
                                if k < before.len() {
                                    assert(before[k] == q);
                                }
                            }
                            if before.contains(q) {
                                let k = choose|k: int| 0 <= k < before.len() && before[k] == q;
                                assert(candidates@[k] == q);
                            }
                            if q == p {
                                assert(candidates@[before.len() as int] == q);
                            }
                        }
                    }
                }
                proof {
                    assert forall|q: Point|
                        #[trigger] candidates@.contains(q) <==> (self.on_field(q) && (q.0 < x || (q.0 == x
                            && q.1 < y + 1)) && !self.body().contains(q)) by {
                        assert(before.contains(q) <==> (self.on_field(q) && (q.0 < x || (q.0 == x && q.1
                            < y)) && !self.body().contains(q)));
                        if candidates@ != before {
                            assert(candidates@.contains(q) <==> (before.contains(q) || q == p));
                        }
                    }
                }
                y = y + 1;
            }
            x = x + 1;
        }
        candidates
    }

    /// A cell the snake does not cover, picked at random; `None` when the
    /// snake covers the whole field.
    fn pick_new_food_location(&self) -> (r: Option<Point>)
        ensures
            r is Some ==> self.on_field(r->Some_0) && !self.body().contains(r->Some_0),
            r is None ==> !self.has_free_cell(),
    {
        let candidates = self.food_candidates();
        if candidates.len() == 0 {
            assert forall|p: Point| self.on_field(p) implies self.body().contains(p) by {
                if !self.body().contains(p) {
                    assert(candidates@.contains(p));
                }
            }
            None
        } else {
            let i = random_below(candidates.len());
            let p = candidates[i];
            assert(candidates@.contains(p));
            Some(p)
        }
    }

    /// Whether the snake is still alive.
    pub fn alive(&self) -> (r: bool)
        ensures
            r == self.is_alive(),
    {
        self.alive
    }

    /// The cell of the head.
    pub fn head(&self) -> (r: Point)
        requires
            self.well_formed(),
        ensures
            r == self.body().last(),
    {
        self.snake[self.snake.len() - 1]
    }

    /// The number of cells of the snake.
    pub fn len(&self) -> (r: usize)
        ensures
            r == self.body().len(),
    {
        self.snake.len()
    }

    /// The character that shows the head in `direction`.
    pub fn direction_symbol(direction: Direction) -> (r: char)
        ensures
            r == match direction {
                Direction::Up => '^',
                Direction::Left => '<',
                Direction::Down => 'V',
                Direction::Right => '>',
            },
    {
        match direction {
            Direction::Up => '^',
            Direction::Left => '<',
            Direction::Down => 'V',
            Direction::Right => '>',
        }
    }

    /// One step of the snake. Off the field it dies. On the food it grows by
    /// the new head, scores, and new food is put on a cell it did not cover.
    /// Elsewhere its tail moves on; running into itself kills it.
    pub fn advance(&mut self)
        requires
            old(self).well_formed(),
        ensures
            final(self).well_formed(),
            slithered(*old(self), *final(self)),
    {
        if !self.alive {
            return;
        }
        let n = self.snake.len();
        let head = self.snake[n - 1];
        self.graphics.buf.set(head, Cell::Colored((255, 255, 100)));
        let new_head = translated(head, self.direction);
        if self.is_within_game_bounds(new_head) {
            let ghost old_body = self.snake@;
            if new_head.0 == self.food.0 && new_head.1 == self.food.1 {
                match self.pick_new_food_location() {
                    Some(food) => {
                        self.food = food;
                        self.graphics.buf.set(food, Cell::Colored((255, 100, 100)));
                    },
                    None => {
                        self.alive = false;
                    },
                }
                if self.score < u32::MAX {
                    self.score = self.score + 1;
                }
                self.graphics.set_panel_item(0, PanelItem::TextItem { text: labelled("Score: ", self.score) });
            } else {
                let tail = self.snake[0];
                self.graphics.buf.set(tail, Cell::Blank);
                self.snake.remove(0);
                assert(self.snake@ =~= old_body.subrange(1, old_body.len() as int));
            }
            if self.covers(new_head) {
                self.alive = false;
            } else {
                self.snake.push(new_head);
                self.graphics.buf.set(new_head, Cell::Colored((255, 255, 100)));
            }
        } else {
            self.alive = false;
        }
        if !self.alive {
            self.graphics.set_panel_item(0, PanelItem::TextItem { text: labelled("Game over.\nScore: ", self.score) });
        }
    }
}

/// One more point, held at the largest `u32`.
pub open spec fn score_plus_one(s: int) -> int {
    if s + 1 > u32::MAX {
        u32::MAX as int
    } else {
        s + 1
    }
}

impl App for Snake {
    open spec fn valid(&self) -> bool {
        self.well_formed()
    }

    fn run_frame(&mut self)
        ensures
            slithered(*old(self), *final(self)),
    {
        self.advance();
    }

    /// WASD turn the snake (see `turned_to`); other keys change nothing.
    fn handle_pressed_key(&mut self, key: char)
        ensures
            key_direction(key) matches Some(d) ==> final(self).heading() == turned_to(*old(self), d),
            same_but_heading(*old(self), *final(self)),
            key_direction(key) is None ==> *final(self) == *old(self),
    {
        if key == 'w' {
            self.set_direction(Direction::Up);
        } else if key == 'a' {
            self.set_direction(Direction::Left);
        } else if key == 's' {
            self.set_direction(Direction::Down);
        } else if key == 'd' {
            self.set_direction(Direction::Right);
        }
    }

    fn handle_released_key(&mut self, key: char)
        ensures
            *final(self) == *old(self),
    {
    }

    fn graphics(&self) -> (r: &Graphics)
        ensures
            r.buf@ == self.board(),
            r.side_panel == self.panel(),
            r.title@ == self.title(),
    {
        &self.graphics
    }
}

} // verus!
