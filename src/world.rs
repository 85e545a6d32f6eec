//! The executable world: grid, snake and score, and the step rule.

use vstd::prelude::*;
use vstd::arithmetic::div_mod::lemma_fundamental_div_mod_converse;
use crate::random::random_in;
use crate::laws::{lemma_food_keeps_wf, lemma_placed_food_is_only_food, lemma_next_head_on_grid, lemma_step_keeps_wf};
use crate::model::{adjacent, ahead, opposite, row_major_le, turned, Collision, Dir, Game, Point, StepResult, Tile};

verus! {

/// How many random cells food placement tries before it scans the grid.
pub const FOOD_TRIES: usize = 64;

/// Where food was put, or that no cell could take it.
#[derive(Clone, Copy, Debug, PartialEq, Eq, Structural)]
pub enum Placement {
    Placed(Point),
    BoardFull,
}

/// The snake: its segments, tail first and head last, and its heading.
pub struct Snake {
    pub segments: Vec<Point>,
    pub dir: Dir,
}

/// The whole game state.
pub struct World {
    pub snake: Snake,
    /// Row-major cells of the persistent layer: walls, floor and food.
    pub screen: Vec<Tile>,
    pub width: usize,
    pub height: usize,
    pub score: u64,
}

impl View for World {
    type V = Game;

    open spec fn view(&self) -> Game {
        Game {
            width: self.width as int,
            height: self.height as int,
            cells: self.screen@,
            segs: self.snake.segments@,
            dir: self.snake.dir,
            score: self.score as int,
        }
    }
}

/// The opposite heading.
pub fn reverse(d: Dir) -> (r: Dir)
    ensures
        r == opposite(d),
{
    match d {
        Dir::Up => Dir::Down,
        Dir::Right => Dir::Left,
        Dir::Down => Dir::Up,
        Dir::Left => Dir::Right,
    }
}

/// The heading after a requested turn; a request to reverse is ignored.
pub fn turn(current: Dir, requested: Option<Dir>) -> (r: Dir)
    ensures
        r == turned(current, requested),
{
    match requested {
        Some(d) => if d == reverse(current) {
            current
        } else {
            d
        },
        None => current,
    }
}

/// The neighbour of a point that is not on the grid's outer edge.
pub fn neighbour(p: Point, d: Dir) -> (r: Point)
    requires
        1 <= p.x < usize::MAX,
        1 <= p.y < usize::MAX,
    ensures
        r == ahead(p, d),
{
    match d {
        Dir::Up => Point { x: p.x, y: p.y - 1 },
        Dir::Right => Point { x: p.x + 1, y: p.y },
        Dir::Down => Point { x: p.x, y: p.y + 1 },
        Dir::Left => Point { x: p.x - 1, y: p.y },
    }
}

/// Whether some segment at index `start` or later is at `p`.
pub fn occupied_from(segments: &Vec<Point>, start: usize, p: Point) -> (r: bool)
    ensures
        r == exists|i: int| start <= i < segments@.len() && #[trigger] segments@[i] == p,
{
    let mut k: usize = start;
    while k < segments.len()
        invariant
            start <= k,
            forall|i: int| start <= i < k && i < segments@.len() ==> #[trigger] segments@[i] != p,
        decreases segments.len() - k,
    {
        if segments[k] == p {
            return true;
        }
        k = k + 1;
    }
    false
}

/// The persistent layer of a fresh grid at row-major position `i`: wall on
/// the border, floor inside.
pub open spec fn fresh_tile(width: int, height: int, i: int) -> Tile {
    let x = i % width;
    let y = i / width;
    if x == 0 || x == width - 1 || y == 0 || y == height - 1 {
        Tile::Wall
    } else {
        Tile::Floor
    }
}

/// The `i`-th segment of a fresh snake of `len` segments centred on the grid.
pub open spec fn fresh_segment(width: int, height: int, len: int, i: int) -> Point {
    Point { x: (width / 2 - len / 2 + i) as usize, y: (height / 2) as usize }
}

/// Builds a world of the given size: a wall border around floor, a snake of
/// `init_size` segments centred horizontally on the middle row and heading
/// right, a score of zero, and one food on a free cell.
pub fn init_world(width: usize, height: usize, init_size: usize) -> (w: World)
    requires
        width >= 5,
        height >= 5,
        1 <= init_size < width - 2,
        width * height <= usize::MAX,
    ensures
        w.wf(),
        w@.width == width,
        w@.height == height,
        w@.score == 0,
        w@.dir == Dir::Right,
        w@.segs.len() == init_size,
        forall|i: int| 0 <= i < init_size ==> #[trigger] w@.segs[i] == fresh_segment(width as int, height as int, init_size as int, i),
        forall|p: Point| #[trigger] w@.in_grid(p) && w@.interior(p) && w@.tile(p) != Tile::Food ==> w@.tile(p) == Tile::Floor,
        w@.one_food(),
        forall|p: Point| #[trigger] w@.is_food(p) ==> !w@.segs.contains(p),
{
    let n: usize = width * height;
    let mut screen: Vec<Tile> = Vec::new();
    let mut i: usize = 0;
    while i < n
        invariant
            n == width * height,
            width >= 5,
            i <= n,
            screen@.len() == i,
            forall|j: int| 0 <= j < i ==> #[trigger] screen@[j] == fresh_tile(width as int, height as int, j),
        decreases n - i,
    {
        let x: usize = i % width;
        let y: usize = i / width;
        let t = if x == 0 || x == width - 1 || y == 0 || y == height - 1 {
            Tile::Wall
        } else {
            Tile::Floor
        };
        screen.push(t);
        i = i + 1;
    }
    let start: usize = width / 2 - init_size / 2;
    let mut segments: Vec<Point> = Vec::new();
    let mut k: usize = 0;
    while k < init_size
        invariant
            start == width / 2 - init_size / 2,
            1 <= init_size < width - 2,
            k <= init_size,
            segments@.len() == k,
            forall|j: int| 0 <= j < k ==> #[trigger] segments@[j] == fresh_segment(width as int, height as int, init_size as int, j),
        decreases init_size - k,
    {
        segments.push(Point { x: start + k, y: height / 2 });
        k = k + 1;
    }
    let mut w = World { snake: Snake { segments, dir: Dir::Right }, screen, width, height, score: 0 };
    let ghost g = w@;
    proof {
        assert forall|p: Point| #[trigger] g.in_grid(p) implies g.tile(p) == fresh_tile(width as int, height as int, g.idx(p))
            && (g.idx(p) % (width as int)) == p.x && (g.idx(p) / (width as int)) == p.y by {
            g.lemma_idx_in_range(p);
            lemma_fundamental_div_mod_converse(g.idx(p), width as int, p.y as int, p.x as int);
        }
        assert(g.walls_ok());
        assert forall|i: int| 0 <= i < g.segs.len() - 1 implies adjacent(#[trigger] g.segs[i], g.segs[i + 1]) by {
            assert(g.segs[i + 1] == fresh_segment(width as int, height as int, init_size as int, i + 1));
        }
        assert forall|i: int, j: int| 0 <= i < j < g.segs.len() implies #[trigger] g.segs[i] != #[trigger] g.segs[j] by {
            assert(g.segs[i].x != g.segs[j].x);
        }
        assert(g.snake_ok());
        assert forall|p: Point| !#[trigger] g.is_food(p) by {
            if g.in_grid(p) {
                assert(g.tile(p) == fresh_tile(width as int, height as int, g.idx(p)));
            }
        }
        let corner = Point { x: 1, y: 1 };
        assert(g.in_grid(corner));
        assert(g.tile(corner) == Tile::Floor);
        if g.segs.contains(corner) {
            let j: int = choose|j: int| 0 <= j < g.segs.len() && g.segs[j] == corner;
            assert(g.segs[j] == fresh_segment(width as int, height as int, init_size as int, j));
        }
        assert(g.is_free(corner));
    }
    let placed = w.place_food();
    proof {
        match placed {
            Placement::Placed(p) => {
                lemma_placed_food_is_only_food(g, p);
                g.lemma_idx_in_range(p);
                assert(w@.is_food(p));
                assert forall|q: Point| #[trigger] w@.is_food(q) implies !w@.segs.contains(q) by {
                    assert(q == p);
                }
                assert forall|q: Point| #[trigger] w@.in_grid(q) && w@.interior(q) && w@.tile(q) != Tile::Food implies w@.tile(q) == Tile::Floor by {
                    g.lemma_idx_in_range(q);
                    g.lemma_idx_in_range(p);
                    assert(g.tile(q) == fresh_tile(width as int, height as int, g.idx(q)));
                }
            },
            Placement::BoardFull => {},
        }
    }
    w
}

impl World {
    pub open spec fn wf(&self) -> bool {
        self@.wf()
    }

    /// The position of `p`'s cell in `screen`.
    pub fn index(&self, p: Point) -> (r: usize)
        requires
            self.wf(),
            self@.in_grid(p),
        ensures
            r == self@.idx(p),
            r < self.screen@.len(),
    {
        let _ = self.screen.len();
        proof {
            self@.lemma_idx_in_range(p);
            let (x, y, w) = (p.x as int, p.y as int, self.width as int);
            assert(0 <= y * w <= x + y * w) by (nonlinear_arith)
                requires
                    0 <= x,
                    0 <= y,
                    0 <= w,
            ;
        }
        p.x + p.y * self.width
    }

    /// The snake's head.
    pub fn head(&self) -> (r: Point)
        requires
            self.wf(),
        ensures
            r == self@.head(),
    {
        self.snake.segments[self.snake.segments.len() - 1]
    }

    /// Advances the world by one tick. The heading turns to `requested` unless
    /// that is a reversal; the head moves one cell; a wall or a segment that
    /// stays in place ends the game and leaves the world unchanged; food is
    /// eaten, cleared and scored, and the snake keeps its tail; otherwise the
    /// tail is dropped.
    pub fn step(&mut self, requested: Option<Dir>) -> (r: StepResult)
        requires
            old(self).wf(),
        ensures
            r == old(self)@.outcome(requested),
            final(self)@ == old(self)@.stepped(requested),
            final(self).wf(),
    {
        proof {
            lemma_next_head_on_grid(self@, requested);
            lemma_step_keeps_wf(self@, requested);
            assert(self@.interior(self@.segs[self@.segs.len() - 1]));
        }
        let heading = turn(self.snake.dir, requested);
        let c = neighbour(self.head(), heading);
        let i: usize = self.index(c);
        let t = self.screen[i];
        if t == Tile::Wall {
            return StepResult::Terminated(Collision::Wall);
        }
        let grows = t == Tile::Food;
        let first: usize = if grows { 0 } else { 1 };
        if occupied_from(&self.snake.segments, first, c) {
            return StepResult::Terminated(Collision::Itself);
        }
        let ghost g = self@;
        let _ = self.snake.segments.len();
        if grows {
            self.screen[i] = Tile::Floor;
            self.score = self.score + 1;
        } else {
            self.snake.segments.remove(0);
        }
        self.snake.segments.push(c);
        self.snake.dir = heading;
        proof {
            if !grows {
                assert(self@.segs =~= g.segs.drop_first().push(c));
            }
            assert(self@ == g.stepped(requested));
        }
        if grows {
            StepResult::Grew
        } else {
            StepResult::Continue
        }
    }

    /// Whether food may be put at `p`: inside the border, on floor, and not
    /// under the snake.
    pub fn is_free(&self, p: Point) -> (r: bool)
        requires
            self.wf(),
        ensures
            r == self@.is_free(p),
    {
        if !(1 <= p.x && p.x < self.width - 1 && 1 <= p.y && p.y < self.height - 1) {
            return false;
        }
        let i: usize = self.index(p);
        if self.screen[i] != Tile::Floor {
            return false;
        }
        let on_snake = occupied_from(&self.snake.segments, 0, p);
        proof {
            if on_snake {
                let k: int = choose|k: int| 0 <= k < self@.segs.len() && #[trigger] self@.segs[k] == p;
                assert(self@.segs.contains(p));
            }
        }
        !on_snake
    }

    /// The first free cell in row-major order, or `None` when no cell is free.
    pub fn first_free_cell(&self) -> (r: Option<Point>)
        requires
            self.wf(),
        ensures
            match r {
                Some(p) => self@.is_free(p) && forall|q: Point| #[trigger] self@.is_free(q) ==> row_major_le(p, q),
                None => self@.board_full(),
            },
    {
        let mut y: usize = 1;
        while y < self.height - 1
            invariant
                self.wf(),
                1 <= y <= self.height - 1,
                forall|q: Point| #[trigger] self@.is_free(q) ==> q.y >= y,
            decreases self.height - y,
        {
            let mut x: usize = 1;
            while x < self.width - 1
                invariant
                    self.wf(),
                    1 <= y < self.height - 1,
                    1 <= x <= self.width - 1,
                    forall|q: Point| #[trigger] self@.is_free(q) ==> q.y > y || (q.y == y && q.x >= x),
                decreases self.width - x,
            {
                let p = Point { x, y };
                if self.is_free(p) {
                    return Some(p);
                }
                x = x + 1;
            }
            y = y + 1;
        }
        None
    }

    /// The first of `candidates` that is free, if any.
    pub fn first_free_of(&self, candidates: &Vec<Point>) -> (r: Option<Point>)
        requires
            self.wf(),
        ensures
            match r {
                Some(p) => exists|k: int|
                    0 <= k < candidates@.len() && candidates@[k] == p && self@.is_free(p)
                        && forall|j: int| 0 <= j < k ==> !self@.is_free(#[trigger] candidates@[j]),
                None => forall|k: int| 0 <= k < candidates@.len() ==> !self@.is_free(#[trigger] candidates@[k]),
            },
    {
        let mut k: usize = 0;
        while k < candidates.len()
            invariant
                self.wf(),
                k <= candidates@.len(),
                forall|j: int| 0 <= j < k ==> !self@.is_free(#[trigger] candidates@[j]),
            decreases candidates.len() - k,
        {
            if self.is_free(candidates[k]) {
                return Some(candidates[k]);
            }
            k = k + 1;
        }
        None
    }

    /// Puts food on the first free cell among `candidates`; when none of them
    /// is free, on the first free cell of the grid in row-major order. Reports
    /// `BoardFull`, changing nothing, exactly when no cell is free.
    pub fn place_food_from(&mut self, candidates: &Vec<Point>) -> (r: Placement)
        requires
            old(self).wf(),
        ensures
            final(self).wf(),
            (r == Placement::BoardFull) <==> old(self)@.board_full(),
            match r {
                Placement::Placed(p) => {
                    &&& old(self)@.is_free(p)
                    &&& final(self)@ == old(self)@.with_food(p)
                    &&& (exists|k: int| 0 <= k < candidates@.len() && old(self)@.is_free(#[trigger] candidates@[k]))
                        ==> (exists|k: int| 0 <= k < candidates@.len() && candidates@[k] == p
                            && forall|j: int| 0 <= j < k ==> !old(self)@.is_free(#[trigger] candidates@[j]))
                    &&& (forall|k: int| 0 <= k < candidates@.len() ==> !old(self)@.is_free(#[trigger] candidates@[k]))
                        ==> (forall|q: Point| #[trigger] old(self)@.is_free(q) ==> row_major_le(p, q))
                },
                Placement::BoardFull => final(self)@ == old(self)@,
            },
    {
        let chosen = match self.first_free_of(candidates) {
            Some(p) => Some(p),
            None => self.first_free_cell(),
        };
        match chosen {
            Some(p) => {
                let i: usize = self.index(p);
                self.screen[i] = Tile::Food;
                proof {
                    lemma_food_keeps_wf(old(self)@, p);
                }
                Placement::Placed(p)
            },
            None => Placement::BoardFull,
        }
    }

    /// Puts food on a free cell: up to `FOOD_TRIES` random interior cells are
    /// tried first, then the grid is scanned. Reports `BoardFull`, changing
    /// nothing, exactly when no cell is free.
    pub fn place_food(&mut self) -> (r: Placement)
        requires
            old(self).wf(),
        ensures
            final(self).wf(),
            (r == Placement::BoardFull) <==> old(self)@.board_full(),
            match r {
                Placement::Placed(p) => old(self)@.is_free(p) && final(self)@ == old(self)@.with_food(p),
                Placement::BoardFull => final(self)@ == old(self)@,
            },
    {
        let mut candidates: Vec<Point> = Vec::new();
        let mut n: usize = 0;
        while n < FOOD_TRIES
            invariant
                self.wf(),
            decreases FOOD_TRIES - n,
        {
            let x: usize = random_in(1, self.width - 1);
            let y: usize = random_in(1, self.height - 1);
            candidates.push(Point { x, y });
            n = n + 1;
        }
        self.place_food_from(&candidates)
    }
}

} // verus!
