use vstd::prelude::*;

use crate::board::Board;
use crate::piece::{glyph, glyph_of, Piece, PieceColor, PieceType};
use crate::position::Position;
use crate::rules::occupant;
use crate::text::push_chars;

verus! {

/// A move: who moves, from where to where, and whether it captures or gives check.
#[derive(Debug, Clone, Copy, PartialEq, Eq, Hash, Structural)]
pub struct MoveNotation {
    pub moving_piece_color: PieceColor,
    pub moving_piece_type: PieceType,
    pub moving_from_position: Position,
    pub is_check: bool,
    pub is_self_check: bool,
    pub is_capture: bool,
    pub moving_to_position: Position,
}

} // verus!

verus! {

impl MoveNotation {
    /// The move of `piece` to `target` on `board`: a capture when a piece of the other
    /// color stands on `target`; neither check nor self-check is marked.
    pub fn from_target(piece: &Piece, target: Position, board: &Board) -> (m: Self)
        requires
            board.wf(),
        ensures
            m == crate::rules::move_of(board.pieces@, *piece, target),
    {
        let mut is_capture = false;
        if let Some(targeted_piece) = board.piece_at(target) {
            if targeted_piece.get_color() != piece.get_color() {
                is_capture = true;
            }
        }
        Self {
            moving_piece_color: piece.get_color(),
            moving_piece_type: piece.get_type(),
            moving_from_position: piece.get_position(),
            is_check: false,
            is_self_check: false,
            is_capture,
            moving_to_position: target,
        }
    }
}

} // verus!

verus! {

impl MoveNotation {
    /// Whether this move ends on `square`.
    pub fn targets_square(&self, square: &Position) -> (r: bool)
        ensures
            r == (self.moving_to_position == *square),
    {
        self.moving_to_position == *square
    }

    /// The square the move starts from.
    pub fn get_source_pos(&self) -> (r: Position)
        ensures
            r == self.moving_from_position,
    {
        self.moving_from_position
    }

    /// The square the move ends on.
    pub fn get_target_pos(&self) -> (r: Position)
        ensures
            r == self.moving_to_position,
    {
        self.moving_to_position
    }

    /// The color, kind, source, target, capture flag and check flag of a move.
    pub fn to_tuple(notation: MoveNotation) -> (r: (PieceColor, PieceType, Position, Position, bool, bool))
        ensures
            r == (
                notation.moving_piece_color,
                notation.moving_piece_type,
                notation.moving_from_position,
                notation.moving_to_position,
                notation.is_capture,
                notation.is_check,
            ),
    {
        let color = notation.moving_piece_color;
        let piece = notation.moving_piece_type;
        let from_position = notation.moving_from_position;
        let to_position = notation.moving_to_position;
        let is_capture = notation.is_capture;
        let is_check = notation.is_check;
        (color, piece, from_position, to_position, is_capture, is_check)
    }

    /// The move as text: the symbol of the moving piece, a space, the source square,
    /// "x" for a capture, the target square and "+" for a check.
    pub open spec fn text(self) -> Seq<char> {
        seq![glyph(self.moving_piece_type, self.moving_piece_color), ' '] + self.moving_from_position.text()
            + (if self.is_capture { seq!['x'] } else { Seq::<char>::empty() })
            + self.moving_to_position.text() + (if self.is_check { seq!['+'] } else { Seq::<char>::empty() })
    }

    /// The move as text, such as "♘ g1f3" or "♕ d1xd7+".
    pub fn to_string(&self) -> (s: String)
        ensures
            s@ == self.text(),
    {
        let mut s = String::new();
        s.push(glyph_of(self.moving_piece_type, self.moving_piece_color));
        s.push(' ');
        let from = self.moving_from_position.to_string();
        push_chars(&mut s, from.as_str());
        if self.is_capture {
            s.push('x');
        }
        let to = self.moving_to_position.to_string();
        push_chars(&mut s, to.as_str());
        if self.is_check {
            s.push('+');
        }
        s
    }

    /// The piece of a color other than `color` on the target square, if any.
    pub fn targets_enemy(&self, board: &Board, color: PieceColor) -> (r: Option<Piece>)
        requires
            board.wf(),
        ensures
            r == match occupant(board.pieces@, self.moving_to_position) {
                Some(q) => if q.color_of() != color { Some(q) } else { None },
                None => None,
            },
    {
        let target_square = self.get_target_pos();
        if let Some(target_piece) = board.piece_at(target_square) {
            if target_piece.get_color() != color {
                return Some(target_piece);
            }
        }
        None
    }

    /// Whether a king of a color other than `color` stands on the target square.
    pub fn targets_enemy_king(&self, board: &Board, color: PieceColor) -> (r: bool)
        requires
            board.wf(),
        ensures
            r == (occupant(board.pieces@, self.moving_to_position) matches Some(q)
                && q.color_of() != color && q.kind_of() == PieceType::King),
    {
        if let Some(target_piece) = self.targets_enemy(board, color) {
            if target_piece.get_type() == PieceType::King && target_piece.get_color() != color {
                return true;
            }
        }
        false
    }

    /// Marks the move as a check exactly when it ends on a king of the other color.
    pub fn apply_check_status(&mut self, board: &Board)
        requires
            board.wf(),
        ensures
            *final(self) == (MoveNotation {
                is_check: occupant(board.pieces@, old(self).moving_to_position) matches Some(q)
                    && q.color_of() != old(self).moving_piece_color && q.kind_of() == PieceType::King,
                ..*old(self)
            }),
    {
        self.is_check = self.targets_enemy_king(board, self.moving_piece_color);
    }
}

} // verus!
