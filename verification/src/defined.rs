//! Tests, run before a call, of the conditions under which the board operations are
//! defined (the inputs on which computing them would overflow or find no piece).
use vstd::prelude::*;

use crate::board::{turn_color, Board, GameTurn};
use crate::check::checkmate_defined;
use crate::game::click_defined;
use crate::layout::{notation_valid, split_commas, token_valid, views};
use crate::notation::MoveNotation;
use crate::piece::{opponent, Piece, PieceColor, PieceType};
use crate::position::Position;
use crate::rules::{
    after_move, bishop_directions, check_defined, color_fits, has_king, in_check, is_king_of,
    king_offsets, knight_offsets, legal_defined, legal_moves_defined, move_defined, moves_fit,
    offsets_fit, pawn_offsets, pseudo_moves, rook_directions
};

verus! {

impl Position {
    /// Whether the offset `(df, dr)` from this square fits in `i8` arithmetic.
    pub fn offset_fits_check(&self, df: i8, dr: i8) -> (r: bool)
        ensures
            r == self.offset_fits(df as int, dr as int),
    {
        let fb: i16 = (self.file as u32 % 256) as i16;
        let fb: i16 = if fb >= 128 { fb - 256 } else { fb };
        let file_index: i16 = fb - 97;
        let rb: i16 = self.rank as i16;
        let rb: i16 = if rb >= 128 { rb - 256 } else { rb };
        let rank_index: i16 = rb - 1;
        let fits = |x: i16| -> (b: bool)
            ensures b == (-128 <= x <= 127)
        { -128 <= x && x <= 127 };
        fits(file_index) && fits(rank_index) && fits(file_index + df as i16) && fits(rank_index + dr as i16)
    }
}

/// Whether every offset of the list fits from `pos`.
fn offsets_fit_check(pos: Position, offsets: &[(i8, i8)]) -> (r: bool)
    ensures
        r == offsets_fit(pos, crate::moves::widen(offsets@)),
{
    let ghost offs = crate::moves::widen(offsets@);
    let n = offsets.len();
    let mut i: usize = 0;
    while i < n
        invariant
            offs == crate::moves::widen(offsets@),
            n == offsets@.len(),
            i <= n,
            forall|j: int| 0 <= j < i ==> pos.offset_fits(#[trigger] offs[j].0, offs[j].1),
        decreases n - i,
    {
        let (df, dr) = offsets[i];
        if !pos.offset_fits_check(df, dr) {
            assert(offs[i as int] == (df as int, dr as int));
            return false;
        }
        i = i + 1;
    }
    true
}

/// Whether the moves of `piece` can be computed without `i8` overflow.
pub fn moves_fit_check(piece: &Piece) -> (r: bool)
    ensures
        r == moves_fit(*piece),
{
    let pos = piece.get_position();
    match piece {
        Piece::Pawn(p) => {
            let d: i8 = match p.color {
                PieceColor::White => 1,
                PieceColor::Black => -1,
            };
            let offs: [(i8, i8); 3] = [(0, d), (-1, d), (1, d)];
            assert(crate::moves::widen(offs@) =~= pawn_offsets(p.color));
            offsets_fit_check(pos, offs.as_slice())
        },
        Piece::Knight(_) => {
            let offs: [(i8, i8); 8] = [(2, 1), (1, 2), (-1, 2), (-2, 1), (-2, -1), (-1, -2), (1, -2), (2, -1)];
            assert(crate::moves::widen(offs@) =~= knight_offsets());
            offsets_fit_check(pos, offs.as_slice())
        },
        Piece::Bishop(_) => {
            let offs: [(i8, i8); 4] = [(1, 1), (1, -1), (-1, 1), (-1, -1)];
            assert(crate::moves::widen(offs@) =~= bishop_directions());
            offsets_fit_check(pos, offs.as_slice())
        },
        Piece::Rook(_) => {
            let offs: [(i8, i8); 4] = [(1, 0), (-1, 0), (0, 1), (0, -1)];
            assert(crate::moves::widen(offs@) =~= rook_directions());
            offsets_fit_check(pos, offs.as_slice())
        },
        Piece::Queen(_) => {
            let offs: [(i8, i8); 8] = [(1, 0), (-1, 0), (0, 1), (0, -1), (1, 1), (1, -1), (-1, 1), (-1, -1)];
            assert(crate::moves::widen(offs@) =~= rook_directions() + bishop_directions());
            offsets_fit_check(pos, offs.as_slice())
        },
        Piece::King(_) => {
            let offs: [(i8, i8); 8] = [(1, 0), (1, 1), (0, 1), (-1, 1), (-1, 0), (-1, -1), (0, -1), (1, -1)];
            assert(crate::moves::widen(offs@) =~= king_offsets());
            offsets_fit_check(pos, offs.as_slice())
        },
    }
}

impl Board {
    /// Whether a king of color `color` is on the board.
    pub fn has_king_check(&self, color: PieceColor) -> (r: bool)
        ensures
            r == has_king(self.pieces@, color),
    {
        let n = self.pieces.len();
        let mut i: usize = 0;
        while i < n
            invariant
                n == self.pieces@.len(),
                i <= n,
                forall|j: int| 0 <= j < i ==> !is_king_of(#[trigger] self.pieces@[j], color),
            decreases n - i,
        {
            let p = self.pieces[i];
            if p.get_color() == color && p.get_type() == PieceType::King {
                assert(is_king_of(self.pieces@[i as int], color));
                return true;
            }
            i = i + 1;
        }
        false
    }

    /// Whether the moves of every piece of color `color` can be computed.
    pub fn color_fits_check(&self, color: PieceColor) -> (r: bool)
        ensures
            r == color_fits(self.pieces@, color),
    {
        let n = self.pieces.len();
        let mut i: usize = 0;
        while i < n
            invariant
                n == self.pieces@.len(),
                i <= n,
                forall|j: int|
                    0 <= j < i && (#[trigger] self.pieces@[j]).color_of() == color ==> moves_fit(
                        self.pieces@[j],
                    ),
            decreases n - i,
        {
            let p = self.pieces[i];
            if p.get_color() == color && !moves_fit_check(&p) {
                return false;
            }
            i = i + 1;
        }
        true
    }

    /// Whether the check test for color `color` can be computed.
    pub fn check_defined_check(&self, color: PieceColor) -> (r: bool)
        ensures
            r == check_defined(self.pieces@, color),
    {
        let enemy = match color {
            PieceColor::White => PieceColor::Black,
            PieceColor::Black => PieceColor::White,
        };
        self.has_king_check(color) && self.color_fits_check(enemy)
    }

    /// Whether a move can be carried out on this board.
    pub fn move_defined_check(&self, m: &MoveNotation) -> (r: bool)
        requires
            self.wf(),
        ensures
            r == move_defined(self.pieces@, *m),
    {
        if self.piece_at(m.moving_from_position).is_none() {
            return false;
        }
        if m.is_capture {
            self.piece_at(m.moving_to_position).is_some() && m.moving_to_position != m.moving_from_position
        } else {
            true
        }
    }

    /// Whether the legal moves of `piece` can be computed on this board.
    pub fn legal_targets_defined(&self, piece: &Piece) -> (r: bool)
        requires
            self.wf(),
        ensures
            r == legal_moves_defined(self.pieces@, *piece),
    {
        reveal(legal_moves_defined);
        if !moves_fit_check(piece) {
            return false;
        }
        let ghost s = self.pieces@;
        let color = piece.get_color();
        let enemy = match color {
            PieceColor::White => PieceColor::Black,
            PieceColor::Black => PieceColor::White,
        };
        let items = piece.pseudo_targets(self);
        let ghost ms = items@;
        let n = items.len();
        let mut i: usize = 0;
        while i < n
            invariant
                self.wf(),
                s == self.pieces@,
                ms == items@,
                ms == pseudo_moves(s, *piece),
                color == piece.color_of(),
                enemy == opponent(color),
                n == ms.len(),
                i <= n,
                forall|k: int| 0 <= k < i ==> {
                    let after = after_move(s, #[trigger] ms[k]);
                    &&& move_defined(s, ms[k])
                    &&& check_defined(after, color)
                    &&& !in_check(after, color) ==> check_defined(after, opponent(color))
                },
            decreases n - i,
        {
            let t = items[i];
            assert(ms[i as int] == t);
            if !self.move_defined_check(&t) {
                proof {
                    reveal(legal_moves_defined);
                    assert(!legal_defined(s, color, ms));
                }
                return false;
            }
            let sim = self.simulate_move(&t);
            if !sim.check_defined_check(color) {
                proof {
                    reveal(legal_moves_defined);
                    assert(!legal_defined(s, color, ms));
                }
                return false;
            }
            if !sim.is_in_check(color) && !sim.check_defined_check(enemy) {
                proof {
                    reveal(legal_moves_defined);
                    assert(!legal_defined(s, color, ms));
                }
                return false;
            }
            i = i + 1;
        }
        true
    }

    /// Whether the checkmate test for the side to move can be computed.
    pub fn check_mate_defined(&self) -> (r: bool)
        requires
            self.wf(),
        ensures
            r == checkmate_defined(self.pieces@, turn_color(self.turn)),
    {
        let current = match self.turn {
            GameTurn::WhiteTurn => PieceColor::White,
            GameTurn::BlackTurn => PieceColor::Black,
        };
        if !self.check_defined_check(current) {
            return false;
        }
        if !self.is_in_check(current) {
            return true;
        }
        let n = self.pieces.len();
        let mut i: usize = 0;
        while i < n
            invariant
                self.wf(),
                current == turn_color(self.turn),
                in_check(self.pieces@, current),
                n == self.pieces@.len(),
                i <= n,
                forall|j: int|
                    0 <= j < i && (#[trigger] self.pieces@[j]).color_of() == current
                        ==> legal_moves_defined(self.pieces@, self.pieces@[j]),
            decreases n - i,
        {
            let p = self.pieces[i];
            if p.get_color() == current && !self.legal_targets_defined(&p) {
                assert(self.pieces@[i as int] == p);
                return false;
            }
            i = i + 1;
        }
        true
    }

    /// Whether a click on `pos` can be handled (see `click_on`).
    pub fn click_defined_check(&self, pos: Position) -> (r: bool)
        requires
            self.wf(),
        ensures
            r == click_defined(*self, pos),
    {
        if let Some(piece) = self.piece_at(pos) {
            let current = match self.turn {
                GameTurn::WhiteTurn => PieceColor::White,
                GameTurn::BlackTurn => PieceColor::Black,
            };
            if piece.get_color() == current {
                return self.legal_targets_defined(&piece);
            }
        }
        if self.selected_piece_location.is_some() {
            if let Some(item) = self.selected_move_to(pos) {
                if !self.move_defined_check(&item) {
                    return false;
                }
                let sim = self.simulate_move(&item);
                return sim.check_mate_defined();
            }
        }
        true
    }
}

/// Whether every comma-separated token of the characters describes a piece.
fn chars_valid(chars: &Vec<char>) -> (r: bool)
    ensures
        r == notation_valid(chars@),
{
    let tokens = crate::layout::split_at_commas(chars);
    let ghost ts = views(tokens@);
    let n = tokens.len();
    let mut i: usize = 0;
    while i < n
        invariant
            ts == views(tokens@),
            ts == split_commas(chars@),
            n == ts.len(),
            i <= n,
            forall|j: int| 0 <= j < i ==> token_valid(#[trigger] ts[j]),
        decreases n - i,
    {
        let t = &tokens[i];
        assert(ts[i as int] == t@);
        let ok = t.len() >= 4 && (t[0] == 'W' || t[0] == 'B') && (t[1] == 'P' || t[1] == 'N' || t[1] == 'B'
            || t[1] == 'R' || t[1] == 'Q' || t[1] == 'K') && (t[2] as u32) < 128 && '0' <= t[3] && t[3] <= '9';
        if !ok {
            return false;
        }
        i = i + 1;
    }
    true
}

/// Whether a board text is valid: every comma-separated token describes a piece.
pub fn notation_is_valid(notation: &str) -> (r: bool)
    ensures
        r == notation_valid(notation@),
{
    chars_valid(&crate::text::chars_of(notation))
}

/// Whether the text of a board file, without leading and trailing white space, is a
/// valid board text.
pub fn board_text_is_valid(contents: &str) -> (r: bool)
    ensures
        r == notation_valid(crate::text::trimmed(contents@)),
{
    let chars = crate::text::chars_of(contents);
    chars_valid(&crate::text::trim_chars(&chars))
}

} // verus!
