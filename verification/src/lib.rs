//! A solver for a two-player stacking game on a 3x3 grid: the position and
//! its rules, an alpha-beta search with iterative deepening, and a cache of
//! evaluations keyed by a symmetry-reduced identifier.

pub mod bits;
pub mod board;
pub mod clock;
pub mod codec;
pub mod coverage;
pub mod eval;
pub mod game;
pub mod ident;
pub mod minimax;
pub mod moves;
pub mod negamax;
pub mod search;
pub mod text;

pub use board::Board;
pub use game::{GameBoard, Select, State};
pub use moves::Move;
