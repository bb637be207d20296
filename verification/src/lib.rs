//! Verified solver for the 15-hole triangular peg-jumping puzzle.
//!
//! A board is a row of 16 cells (cell 0 is an unused sentinel; cells 1
//! through 15 are the physical holes). A jump removes two adjacent pegs
//! and fills a third, empty hole; the solver searches the fixed table of
//! geometrically valid jumps depth-first, undoing each jump that leads
//! nowhere, until one peg is left (optionally at a requested cell).

pub mod board;
pub mod search;
pub mod solver;
pub mod table;

pub use board::Jump;
pub use board::PEG;
pub use board::HOLE;
pub use solver::PuzzlePegs;
