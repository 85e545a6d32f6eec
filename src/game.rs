//! One tick of the game loop: an input key in, the next world and whether the
//! game goes on out.

use vstd::prelude::*;
use crate::laws::{lemma_placed_food_is_only_food, lemma_step_food, lemma_step_score};
use crate::model::{Collision, Dir, Game, Point, StepResult};
use crate::world::{Placement, World};

verus! {

/// A key the player pressed.
#[derive(Clone, Copy, Debug, PartialEq, Eq, Structural)]
pub enum Key {
    Up,
    Down,
    Left,
    Right,
    Quit,
    Other,
}

/// Whether the game goes on after a tick, and if not, why.
#[derive(Clone, Copy, Debug, PartialEq, Eq, Structural)]
pub enum TickResult {
    Running,
    Quit,
    Over(Collision),
    /// The snake grew and no free cell is left for food.
    BoardFull,
}

/// The heading a key asks for, if any.
pub open spec fn request_of(key: Option<Key>) -> Option<Dir> {
    match key {
        Some(Key::Up) => Some(Dir::Up),
        Some(Key::Down) => Some(Dir::Down),
        Some(Key::Left) => Some(Dir::Left),
        Some(Key::Right) => Some(Dir::Right),
        _ => None,
    }
}

/// The heading a key asks for, if any.
pub fn requested_dir(key: Option<Key>) -> (r: Option<Dir>)
    ensures
        r == request_of(key),
{
    match key {
        Some(Key::Up) => Some(Dir::Up),
        Some(Key::Down) => Some(Dir::Down),
        Some(Key::Left) => Some(Dir::Left),
        Some(Key::Right) => Some(Dir::Right),
        _ => None,
    }
}

/// A tick on `g` with `key` pressed reports `r` and leaves `next`; after
/// growth the food goes to some free cell.
pub open spec fn tick_spec(g: Game, key: Option<Key>, r: TickResult, next: Game) -> bool {
    let req = request_of(key);
    let s = g.stepped(req);
    if key == Some(Key::Quit) {
        r == TickResult::Quit && next == g
    } else {
        match g.outcome(req) {
            StepResult::Terminated(c) => r == TickResult::Over(c) && next == g,
            StepResult::Continue => r == TickResult::Running && next == s,
            StepResult::Grew => if s.board_full() {
                r == TickResult::BoardFull && next == s
            } else {
                r == TickResult::Running && exists|p: Point| #[trigger] s.is_free(p) && next == s.with_food(p)
            },
        }
    }
}

impl World {
    /// Runs one tick: the quit key ends the game; otherwise the world steps
    /// with the heading the key asks for, and food is placed again after the
    /// snake grows. The game goes on while the tick reports `Running`.
    pub fn tick(&mut self, key: Option<Key>) -> (r: TickResult)
        requires
            old(self).wf(),
        ensures
            final(self).wf(),
            tick_spec(old(self)@, key, r, final(self)@),
            final(self)@.score >= old(self)@.score,
            old(self)@.one_food() && r == TickResult::Running ==> final(self)@.one_food(),
    {
        if key == Some(Key::Quit) {
            return TickResult::Quit;
        }
        let req = requested_dir(key);
        let ghost g = self@;
        proof {
            lemma_step_score(g, req);
            if g.one_food() {
                lemma_step_food(g, req);
            }
        }
        match self.step(req) {
            StepResult::Terminated(c) => TickResult::Over(c),
            StepResult::Continue => TickResult::Running,
            StepResult::Grew => {
                let ghost s = self@;
                match self.place_food() {
                    Placement::Placed(p) => {
                        proof {
                            if g.one_food() {
                                lemma_placed_food_is_only_food(s, p);
                            }
                        }
                        TickResult::Running
                    },
                    Placement::BoardFull => TickResult::BoardFull,
                }
            },
        }
    }
}

} // verus!
