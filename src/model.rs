//! The game's values and the mathematical model of a world.

use vstd::prelude::*;

verus! {

/// What a grid cell holds in the persistent layer.
#[derive(Clone, Copy, Debug, PartialEq, Eq, Structural)]
pub enum Tile {
    Wall,
    Floor,
    Food,
}

/// A cardinal heading.
#[derive(Clone, Copy, Debug, PartialEq, Eq, Structural)]
pub enum Dir {
    Up,
    Right,
    Down,
    Left,
}

/// A grid coordinate; `x` grows to the right and `y` grows downwards.
#[derive(Clone, Copy, Debug, PartialEq, Eq, Structural)]
pub struct Point {
    pub x: usize,
    pub y: usize,
}

/// What the snake ran into.
#[derive(Clone, Copy, Debug, PartialEq, Eq, Structural)]
pub enum Collision {
    Wall,
    Itself,
}

/// The result of one step of the simulation.
#[derive(Clone, Copy, Debug, PartialEq, Eq, Structural)]
pub enum StepResult {
    /// The snake moved one cell.
    Continue,
    /// The snake moved onto food and grew by one segment.
    Grew,
    /// The snake collided; the world is left as it was.
    Terminated(Collision),
}

pub open spec fn opposite(d: Dir) -> Dir {
    match d {
        Dir::Up => Dir::Down,
        Dir::Right => Dir::Left,
        Dir::Down => Dir::Up,
        Dir::Left => Dir::Right,
    }
}

/// The heading after a requested turn: a reversal is ignored.
pub open spec fn turned(current: Dir, requested: Option<Dir>) -> Dir {
    match requested {
        Some(d) => if d == opposite(current) { current } else { d },
        None => current,
    }
}

/// The neighbour of `p` in direction `d`.
pub open spec fn ahead(p: Point, d: Dir) -> Point {
    match d {
        Dir::Up => Point { x: p.x, y: (p.y - 1) as usize },
        Dir::Right => Point { x: (p.x + 1) as usize, y: p.y },
        Dir::Down => Point { x: p.x, y: (p.y + 1) as usize },
        Dir::Left => Point { x: (p.x - 1) as usize, y: p.y },
    }
}

/// Two points one unit apart along exactly one axis.
pub open spec fn adjacent(a: Point, b: Point) -> bool {
    (a.x == b.x && (a.y + 1 == b.y || b.y + 1 == a.y))
        || (a.y == b.y && (a.x + 1 == b.x || b.x + 1 == a.x))
}

/// `p` comes no later than `q` in row-major order.
pub open spec fn row_major_le(p: Point, q: Point) -> bool {
    p.y < q.y || (p.y == q.y && p.x <= q.x)
}

/// The abstract state of a world.
pub struct Game {
    pub width: int,
    pub height: int,
    /// Row-major cells: the cell of `p` is at `p.x + p.y * width`.
    pub cells: Seq<Tile>,
    /// The snake's segments, tail first and head last.
    pub segs: Seq<Point>,
    pub dir: Dir,
    pub score: int,
}

impl Game {
    pub open spec fn in_grid(self, p: Point) -> bool {
        p.x < self.width && p.y < self.height
    }

    pub open spec fn interior(self, p: Point) -> bool {
        1 <= p.x && p.x + 1 < self.width && 1 <= p.y && p.y + 1 < self.height
    }

    pub open spec fn idx(self, p: Point) -> int {
        p.x + p.y * self.width
    }

    pub proof fn lemma_idx_in_range(self, p: Point)
        requires
            self.width >= 1,
            self.height >= 1,
            self.in_grid(p),
        ensures
            0 <= self.idx(p) < self.width * self.height,
    {
        let (x, y, w, h) = (p.x as int, p.y as int, self.width, self.height);
        assert(0 <= x + y * w < w * h) by (nonlinear_arith)
            requires
                0 <= x < w,
                0 <= y < h,
        ;
    }

    pub proof fn lemma_idx_injective(self, p: Point, q: Point)
        requires
            self.width >= 1,
            self.in_grid(p),
            self.in_grid(q),
            self.idx(p) == self.idx(q),
        ensures
            p == q,
    {
        let (x1, y1, x2, y2, w) = (p.x as int, p.y as int, q.x as int, q.y as int, self.width);
        assert(y1 == y2) by (nonlinear_arith)
            requires
                0 <= x1 < w,
                0 <= x2 < w,
                0 <= y1,
                0 <= y2,
                x1 + y1 * w == x2 + y2 * w,
        {
            if y1 < y2 {
                assert(y2 * w >= (y1 + 1) * w);
            } else if y2 < y1 {
                assert(y1 * w >= (y2 + 1) * w);
            }
        }
    }

    pub open spec fn tile(self, p: Point) -> Tile {
        self.cells[self.idx(p)]
    }

    pub open spec fn head(self) -> Point {
        self.segs.last()
    }

    /// The grid's border is wall and only the border is wall.
    pub open spec fn walls_ok(self) -> bool {
        forall|p: Point| #[trigger] self.in_grid(p) ==> ((self.tile(p) == Tile::Wall) <==> !self.interior(p))
    }

    /// Every segment is inside the border, neighbours touch, and no two coincide.
    pub open spec fn snake_ok(self) -> bool {
        &&& self.segs.len() >= 1
        &&& forall|i: int| 0 <= i < self.segs.len() ==> self.interior(#[trigger] self.segs[i])
        &&& forall|i: int| 0 <= i < self.segs.len() - 1 ==> adjacent(#[trigger] self.segs[i], self.segs[i + 1])
        &&& forall|i: int, j: int| 0 <= i < j < self.segs.len() ==> #[trigger] self.segs[i] != #[trigger] self.segs[j]
    }

    /// The invariant of every reachable state. The score stays below the
    /// snake's length, since each point scored adds one segment.
    pub open spec fn wf(self) -> bool {
        &&& 3 <= self.width <= usize::MAX
        &&& 3 <= self.height <= usize::MAX
        &&& self.cells.len() == self.width * self.height
        &&& self.walls_ok()
        &&& self.snake_ok()
        &&& 0 <= self.score < self.segs.len()
    }

    pub open spec fn is_food(self, p: Point) -> bool {
        self.in_grid(p) && self.tile(p) == Tile::Food
    }

    /// Exactly one cell holds food.
    pub open spec fn one_food(self) -> bool {
        exists|p: Point| #[trigger] self.is_food(p) && forall|q: Point| #[trigger] self.is_food(q) ==> q == p
    }

    /// No cell holds food.
    pub open spec fn no_food(self) -> bool {
        forall|p: Point| !#[trigger] self.is_food(p)
    }

    /// A cell where food may be placed: inside the border, floor, and not under the snake.
    pub open spec fn is_free(self, p: Point) -> bool {
        self.interior(p) && self.tile(p) == Tile::Floor && !self.segs.contains(p)
    }

    pub open spec fn board_full(self) -> bool {
        forall|p: Point| !#[trigger] self.is_free(p)
    }

    /// The world with food put at `p`.
    pub open spec fn with_food(self, p: Point) -> Game {
        Game { cells: self.cells.update(self.idx(p), Tile::Food), ..self }
    }

    pub open spec fn heading(self, requested: Option<Dir>) -> Dir {
        turned(self.dir, requested)
    }

    /// The cell the head moves into.
    pub open spec fn next_head(self, requested: Option<Dir>) -> Point {
        ahead(self.head(), self.heading(requested))
    }

    pub open spec fn grows(self, requested: Option<Dir>) -> bool {
        self.tile(self.next_head(requested)) == Tile::Food
    }

    /// The new head lands on a segment that stays in place this tick: every
    /// segment when growing, every segment but the tail otherwise.
    pub open spec fn hits_body(self, requested: Option<Dir>) -> bool {
        let first: int = if self.grows(requested) { 0 } else { 1 };
        exists|i: int| first <= i < self.segs.len() && #[trigger] self.segs[i] == self.next_head(requested)
    }

    pub open spec fn outcome(self, requested: Option<Dir>) -> StepResult {
        if self.tile(self.next_head(requested)) == Tile::Wall {
            StepResult::Terminated(Collision::Wall)
        } else if self.hits_body(requested) {
            StepResult::Terminated(Collision::Itself)
        } else if self.grows(requested) {
            StepResult::Grew
        } else {
            StepResult::Continue
        }
    }

    /// The world after one step.
    pub open spec fn stepped(self, requested: Option<Dir>) -> Game {
        let c = self.next_head(requested);
        match self.outcome(requested) {
            StepResult::Terminated(_) => self,
            StepResult::Grew => Game {
                cells: self.cells.update(self.idx(c), Tile::Floor),
                segs: self.segs.push(c),
                dir: self.heading(requested),
                score: self.score + 1,
                ..self
            },
            StepResult::Continue => Game {
                segs: self.segs.drop_first().push(c),
                dir: self.heading(requested),
                ..self
            },
        }
    }
}

} // verus!
