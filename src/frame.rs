//! The picture of one frame: the snake and the food drawn over the grid.

use vstd::prelude::*;
use crate::model::{Dir, Game, Tile};
use crate::world::World;

verus! {

pub open spec fn tile_glyph(t: Tile) -> char {
    match t {
        Tile::Wall => '#',
        Tile::Floor => ' ',
        Tile::Food => '@',
    }
}

/// The head's glyph points where the snake is heading.
pub open spec fn head_glyph(d: Dir) -> char {
    match d {
        Dir::Up => '^',
        Dir::Right => '>',
        Dir::Down => 'v',
        Dir::Left => '<',
    }
}

pub const BODY_GLYPH: char = '*';

/// The glyph at row-major position `i` of the frame: the head, else a body
/// segment, else the grid's own tile.
pub open spec fn frame_glyph(g: Game, i: int) -> char {
    if i == g.idx(g.head()) {
        head_glyph(g.dir)
    } else if exists|k: int| 0 <= k < g.segs.len() - 1 && g.idx(#[trigger] g.segs[k]) == i {
        BODY_GLYPH
    } else {
        tile_glyph(g.cells[i])
    }
}

pub fn glyph_of_tile(t: Tile) -> (r: char)
    ensures
        r == tile_glyph(t),
{
    match t {
        Tile::Wall => '#',
        Tile::Floor => ' ',
        Tile::Food => '@',
    }
}

pub fn glyph_of_head(d: Dir) -> (r: char)
    ensures
        r == head_glyph(d),
{
    match d {
        Dir::Up => '^',
        Dir::Right => '>',
        Dir::Down => 'v',
        Dir::Left => '<',
    }
}

impl World {
    /// The frame to show, one glyph per cell in row-major order.
    pub fn frame(&self) -> (r: Vec<char>)
        requires
            self.wf(),
        ensures
            r@.len() == self@.cells.len(),
            forall|i: int| 0 <= i < r@.len() ==> #[trigger] r@[i] == frame_glyph(self@, i),
    {
        let g = Ghost(self@);
        let mut r: Vec<char> = Vec::new();
        let mut i: usize = 0;
        while i < self.screen.len()
            invariant
                i <= self.screen@.len(),
                r@.len() == i,
                forall|j: int| 0 <= j < i ==> #[trigger] r@[j] == tile_glyph(self.screen@[j]),
            decreases self.screen.len() - i,
        {
            r.push(glyph_of_tile(self.screen[i]));
            i = i + 1;
        }
        let last: usize = self.snake.segments.len() - 1;
        let mut k: usize = 0;
        while k < last
            invariant
                self.wf(),
                g@ == self@,
                last == self@.segs.len() - 1,
                k <= last,
                r@.len() == self@.cells.len(),
                forall|j: int| 0 <= j < r@.len() ==> #[trigger] r@[j] == if exists|m: int| 0 <= m < k && self@.idx(#[trigger] self@.segs[m]) == j {
                    BODY_GLYPH
                } else {
                    tile_glyph(self@.cells[j])
                },
            decreases last - k,
        {
            let ghost before = r@;
            proof {
                assert(self@.interior(self@.segs[k as int]));
            }
            let at: usize = self.index(self.snake.segments[k]);
            r.set(at, BODY_GLYPH);
            proof {
                assert forall|j: int| 0 <= j < r@.len() implies #[trigger] r@[j] == if exists|m: int| 0 <= m < k + 1 && self@.idx(#[trigger] self@.segs[m]) == j {
                    BODY_GLYPH
                } else {
                    tile_glyph(self@.cells[j])
                } by {
                    if j != at as int {
                        assert(r@[j] == before[j]);
                        if exists|m: int| 0 <= m < k + 1 && self@.idx(#[trigger] self@.segs[m]) == j {
                            let m = choose|m: int| 0 <= m < k + 1 && self@.idx(#[trigger] self@.segs[m]) == j;
                            assert(m < k);
                        }
                    }
                }
            }
            k = k + 1;
        }
        proof {
            assert(self@.interior(self@.segs[last as int]));
        }
        let at: usize = self.index(self.head());
        r.set(at, glyph_of_head(self.snake.dir));
        r
    }
}

} // verus!
