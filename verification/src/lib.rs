//! The core of a falling-block puzzle: pieces and their rotation states, the
//! playfield with its row clearing, and the game that moves, locks and scores.

pub mod block;
pub mod game;
pub mod grid;
pub mod model;
pub mod tiles;
