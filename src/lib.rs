//! A terminal snake game's world: the grid, the snake, the score, and the
//! rules that advance them one tick at a time.

pub mod model;
pub mod laws;
pub mod world;
mod random;
pub mod game;
pub mod frame;
