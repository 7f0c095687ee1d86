//! The rules of a falling-block puzzle game: a grid of ten by twenty cells,
//! seven pieces drawn from a shuffled bag, the checks that guard each move
//! and turn, locking, row clearing, scoring and levels.
//!
//! The library holds no state of its own and does no input or output. A
//! driver owns a [`game::Game`], feeds it the player's input and the time
//! that has passed, and draws what it is told to draw.

pub mod board;
pub mod game;
pub mod menu;
pub mod piece;
