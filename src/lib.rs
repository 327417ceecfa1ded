//! Chess move generation: board representation, attack computation, legal
//! move enumeration, move application and game-end detection, each stated
//! against a mathematical model of the rules and proved.

mod types;
pub mod bitboard;
mod board;
pub mod attacks;
mod setup;
pub mod rules;
mod position;
mod perft;
mod invariants;

pub use crate::types::{Color, Role, Piece, Square, Move};
pub use crate::board::Board;
pub use crate::setup::{Castles, Setup, State};
pub use crate::position::{Chess, MoveList, Outcome, PlayError, PositionError};
pub use crate::perft::perft;
pub use crate::bitboard::Bitboard;
