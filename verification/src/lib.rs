//! A 19x19 two-player board-game engine: placement legality, bracket-capture
//! resolution, forbidden double-open-three detection, two-stage win detection,
//! a pattern-based positional evaluator, and a time-bounded minimax search
//! with a transposition table and killer-move ordering.

pub mod board;
pub mod check;
pub mod clock;
pub mod game;
pub mod grid;
pub mod laws;
pub mod minimax;
pub mod parse;
pub mod scan;
pub mod square;
pub mod zobrist;
