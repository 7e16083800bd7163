//! A solver for a small grid puzzle: an N×N board of letters and blanks in
//! which every row and column holds each value at most once, and clues on the
//! four edges name the first letter seen from that edge.
//!
//! `line` states the rules for a single row or column, `puzzle` checks a
//! whole board against them, and `solver` searches for a board that keeps
//! them all. `text` draws boards and outcomes.

pub mod board;
pub mod cell;
pub mod line;
pub mod puzzle;
pub mod solver;
pub mod text;

pub use board::{test_board, Board};
pub use cell::{Cell, LineType};
pub use puzzle::{test_puzzle, FailReason, Puzzle, Verification};
pub use solver::solve;
