//! A bitboard chess rules engine with a depth-limited alpha-beta search.
//!
//! The board is held as twelve 64-bit piece masks plus a side-to-move flag.
//! Move generation, legality filtering (self-check pruning), move execution,
//! material evaluation and the minimax search are all verified against a
//! mathematical model of the board.

pub mod bits;
pub mod bot;
pub mod engine;
pub mod laws;
pub mod lemmas;
pub mod model;
pub mod utils;

pub use bot::{evaluate, minimax, minimax_unpruned};
pub use engine::{Chess, MoveError, Position};
pub use utils::get_indices_of_set_bits;
