//! Procedural minesweeper board generation.
//!
//! The library builds fully revealed minesweeper boards: a square grid in
//! which exactly the requested number of cells are mines and every other
//! cell carries the number of mines among its in-bounds neighbors. Mine
//! positions come from a caller-supplied source of random integers, so
//! generation is seedable and testable. A small renderer turns a finished
//! board into chat-message text.

pub mod board;
pub mod rng;
pub mod render;
