//! A chess board with its rules: where each piece may move, check, checkmate, making
//! moves, the board's text form, and what a click on a square does.
use vstd::prelude::*;

pub mod text;
pub mod position;
pub mod piece;
pub mod notation;
pub mod rules;
pub mod board;
pub mod moves;
pub mod check;
pub mod layout;
pub mod game;
pub mod defined;
pub mod laws;
pub mod css;
pub mod move_laws;
pub mod game_laws;

pub use board::{Board, GameTurn};
pub use game::{AppState, ClickOutcome, MenuButton};
pub use notation::MoveNotation;
pub use piece::{piece_filename, Bishop, King, Knight, Pawn, Piece, PieceColor, PieceType, Queen, Rook};
pub use position::Position;

verus! {
} // verus!
