//! Properties of the step rule, proved over the model.

use vstd::prelude::*;
use crate::model::{ahead, adjacent, opposite, turned, Collision, Dir, Game, Point, StepResult, Tile};

verus! {

/// The neighbour of an interior point is on the grid and touches it.
pub proof fn lemma_ahead_of_interior(g: Game, p: Point, d: Dir)
    requires
        g.interior(p),
        g.width <= usize::MAX,
        g.height <= usize::MAX,
    ensures
        g.in_grid(ahead(p, d)),
        adjacent(p, ahead(p, d)),
{
    match d {
        Dir::Up => assert(ahead(p, d).y + 1 == p.y),
        Dir::Right => assert(ahead(p, d).x == p.x + 1),
        Dir::Down => assert(ahead(p, d).y == p.y + 1),
        Dir::Left => assert(ahead(p, d).x + 1 == p.x),
    }
}

/// The cell the head moves into is on the grid; when it is not a wall it is
/// inside the border.
pub proof fn lemma_next_head_on_grid(g: Game, requested: Option<Dir>)
    requires
        g.wf(),
    ensures
        g.in_grid(g.next_head(requested)),
        adjacent(g.head(), g.next_head(requested)),
        g.tile(g.next_head(requested)) != Tile::Wall ==> g.interior(g.next_head(requested)),
{
    assert(g.interior(g.segs[g.segs.len() - 1]));
    lemma_ahead_of_interior(g, g.head(), g.heading(requested));
}

/// Every reachable state stays well formed: in particular every segment stays
/// strictly inside the border, and a step that would leave it is a wall
/// collision that changes nothing.
pub proof fn lemma_step_keeps_wf(g: Game, requested: Option<Dir>)
    requires
        g.wf(),
    ensures
        g.stepped(requested).wf(),
        forall|i: int| 0 <= i < g.stepped(requested).segs.len()
            ==> g.interior(#[trigger] g.stepped(requested).segs[i]),
        g.outcome(requested) == StepResult::Terminated(Collision::Wall) ==> g.stepped(requested) == g,
{
    let c = g.next_head(requested);
    let n = g.stepped(requested);
    let len = g.segs.len();
    lemma_next_head_on_grid(g, requested);
    match g.outcome(requested) {
        StepResult::Terminated(_) => {},
        StepResult::Grew => {
            assert(g.interior(c));
            g.lemma_idx_in_range(c);
            assert forall|p: Point| #[trigger] n.in_grid(p) implies ((n.tile(p) == Tile::Wall) <==> !n.interior(p)) by {
                g.lemma_idx_in_range(p);
                g.lemma_idx_in_range(c);
                if g.idx(p) == g.idx(c) {
                    g.lemma_idx_injective(p, c);
                } else {
                    assert(n.tile(p) == g.tile(p));
                    assert(g.in_grid(p));
                }
            }
            assert forall|i: int| 0 <= i < n.segs.len() - 1 implies adjacent(#[trigger] n.segs[i], n.segs[i + 1]) by {
                if i < len - 1 {
                    assert(adjacent(g.segs[i], g.segs[i + 1]));
                }
            }
            assert forall|i: int, j: int| 0 <= i < j < n.segs.len() implies #[trigger] n.segs[i] != #[trigger] n.segs[j] by {
                if j == len {
                    if n.segs[i] == n.segs[j] {
                        assert(g.segs[i] == c);
                    }
                }
            }
            assert forall|i: int| 0 <= i < n.segs.len() implies n.interior(#[trigger] n.segs[i]) by {
                if i < len {
                    assert(g.interior(g.segs[i]));
                }
            }
            assert(n.walls_ok());
            assert(n.snake_ok());
        },
        StepResult::Continue => {
            assert(g.interior(c));
            assert(n.cells == g.cells);
            assert forall|p: Point| #[trigger] n.in_grid(p) implies ((n.tile(p) == Tile::Wall) <==> !n.interior(p)) by {
                assert(g.in_grid(p));
            }
            assert forall|i: int| 0 <= i < n.segs.len() - 1 implies adjacent(#[trigger] n.segs[i], n.segs[i + 1]) by {
                if i < len - 2 {
                    assert(adjacent(g.segs[i + 1], g.segs[i + 2]));
                }
            }
            assert forall|i: int, j: int| 0 <= i < j < n.segs.len() implies #[trigger] n.segs[i] != #[trigger] n.segs[j] by {
                if j == len - 1 {
                    if n.segs[i] == n.segs[j] {
                        assert(g.segs[i + 1] == c);
                    }
                } else {
                    assert(g.segs[i + 1] != g.segs[j + 1]);
                }
            }
            assert forall|i: int| 0 <= i < n.segs.len() implies n.interior(#[trigger] n.segs[i]) by {
                if i < len - 1 {
                    assert(g.interior(g.segs[i + 1]));
                }
            }
            assert(n.walls_ok());
            assert(n.snake_ok());
        },
    }
}

/// Putting food on a free cell keeps the world well formed.
pub proof fn lemma_food_keeps_wf(g: Game, p: Point)
    requires
        g.wf(),
        g.is_free(p),
    ensures
        g.with_food(p).wf(),
{
    let n = g.with_food(p);
    assert(g.in_grid(p));
    g.lemma_idx_in_range(p);
    assert forall|q: Point| #[trigger] n.in_grid(q) implies ((n.tile(q) == Tile::Wall) <==> !n.interior(q)) by {
        g.lemma_idx_in_range(q);
        if g.idx(q) == g.idx(p) {
            g.lemma_idx_injective(p, q);
        } else {
            assert(g.in_grid(q));
        }
    }
    assert forall|i: int| 0 <= i < n.segs.len() implies n.interior(#[trigger] n.segs[i]) by {
        assert(g.interior(g.segs[i]));
    }
}

/// Food put on a free cell of a grid without food is the only food.
pub proof fn lemma_placed_food_is_only_food(g: Game, p: Point)
    requires
        g.wf(),
        g.no_food(),
        g.is_free(p),
    ensures
        g.with_food(p).one_food(),
{
    let n = g.with_food(p);
    assert(g.in_grid(p));
    g.lemma_idx_in_range(p);
    assert(n.is_food(p));
    assert forall|q: Point| #[trigger] n.is_food(q) implies q == p by {
        g.lemma_idx_in_range(q);
        if g.idx(q) == g.idx(p) {
            g.lemma_idx_injective(p, q);
        } else {
            assert(g.is_food(q));
        }
    }
}

/// A step lengthens the snake by exactly one segment when it reports growth,
/// and leaves the length unchanged otherwise.
pub proof fn lemma_step_length(g: Game, requested: Option<Dir>)
    requires
        g.wf(),
    ensures
        g.outcome(requested) == StepResult::Grew ==> g.stepped(requested).segs.len() == g.segs.len() + 1,
        g.outcome(requested) != StepResult::Grew ==> g.stepped(requested).segs.len() == g.segs.len(),
{
}

/// With exactly one food on the grid, an ordinary move keeps exactly one, and
/// a growing move eats it and leaves none until food is placed again.
pub proof fn lemma_step_food(g: Game, requested: Option<Dir>)
    requires
        g.wf(),
        g.one_food(),
    ensures
        g.outcome(requested) != StepResult::Grew ==> g.stepped(requested).one_food(),
        g.outcome(requested) == StepResult::Grew ==> g.stepped(requested).no_food(),
{
    let c = g.next_head(requested);
    let n = g.stepped(requested);
    lemma_next_head_on_grid(g, requested);
    if g.outcome(requested) == StepResult::Grew {
        assert(g.is_food(c));
        g.lemma_idx_in_range(c);
        assert forall|q: Point| !#[trigger] n.is_food(q) by {
            if n.is_food(q) {
                g.lemma_idx_in_range(q);
                if g.idx(q) != g.idx(c) {
                    assert(g.is_food(q));
                    assert(q == c);
                }
            }
        }
    } else {
        assert(n.cells == g.cells);
        let f = choose|f: Point| #[trigger] g.is_food(f) && forall|q: Point| #[trigger] g.is_food(q) ==> q == f;
        assert(n.is_food(f));
        assert forall|q: Point| #[trigger] n.is_food(q) implies q == f by {
            assert(g.is_food(q));
        }
    }
}

/// Asking for the opposite of the current heading never changes the heading.
pub proof fn lemma_no_reversal(g: Game)
    requires
        g.wf(),
    ensures
        forall|d: Dir| #[trigger] turned(d, Some(opposite(d))) == d,
        g.stepped(Some(opposite(g.dir))).dir == g.dir,
{
}

/// When the head moves onto the tail cell of a snake of two or more segments,
/// the snake survives if it does not grow, since the tail moves away, and
/// collides with itself if it grows, since the tail stays.
pub proof fn lemma_tail_tie_break(g: Game, requested: Option<Dir>)
    requires
        g.wf(),
        g.segs.len() >= 2,
        g.next_head(requested) == g.segs[0],
    ensures
        !g.grows(requested) ==> g.outcome(requested) == StepResult::Continue,
        g.grows(requested) ==> g.outcome(requested) == StepResult::Terminated(Collision::Itself),
{
    let c = g.next_head(requested);
    assert(g.interior(g.segs[0]));
    assert(g.in_grid(c));
    if !g.grows(requested) {
        assert forall|i: int| 1 <= i < g.segs.len() implies #[trigger] g.segs[i] != c by {
            assert(g.segs[0] != g.segs[i]);
        }
    }
}

/// The score never decreases, and it rises by exactly one on a step that eats
/// food and on no other.
pub proof fn lemma_step_score(g: Game, requested: Option<Dir>)
    requires
        g.wf(),
    ensures
        g.stepped(requested).score >= g.score,
        g.outcome(requested) == StepResult::Grew <==> g.stepped(requested).score == g.score + 1,
        g.outcome(requested) != StepResult::Grew ==> g.stepped(requested).score == g.score,
{
}

} // verus!
