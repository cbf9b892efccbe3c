//! A turn-based snake game on a walled 25 x 25 board.
//!
//! The crate holds the simulation only: the board and what is stamped on it,
//! the snake and its movement, the food items, the rules that end a round and
//! the mapping from keys to commands. Painting a terminal and reading a
//! keyboard are left to the program around it, which hands key events in and
//! reads the board back.

pub mod board;
pub mod random;
pub mod snake;
pub mod food;
pub mod rules;
pub mod input;
pub mod game;
