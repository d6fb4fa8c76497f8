use vstd::prelude::*;

use crate::position::Position;
use crate::text::push_chars;

verus! {

#[derive(Debug, Clone, Copy, PartialEq, Eq, Hash, Structural)]
pub enum PieceType {
    Pawn,
    Knight,
    Bishop,
    Rook,
    Queen,
    King,
}

#[derive(Debug, Clone, Copy, PartialEq, Eq, Hash, Structural)]
pub enum PieceColor {
    White,
    Black,
}

#[derive(Debug, Clone, Copy, PartialEq, Eq, Hash, Structural)]
pub struct Pawn {
    pub color: PieceColor,
    pub position: Position,
    pub has_moved: bool,
}

#[derive(Debug, Clone, Copy, PartialEq, Eq, Hash, Structural)]
pub struct Knight {
    pub color: PieceColor,
    pub position: Position,
}

#[derive(Debug, Clone, Copy, PartialEq, Eq, Hash, Structural)]
pub struct Bishop {
    pub color: PieceColor,
    pub position: Position,
}

#[derive(Debug, Clone, Copy, PartialEq, Eq, Hash, Structural)]
pub struct Rook {
    pub color: PieceColor,
    pub position: Position,
    pub has_moved: bool,
}

#[derive(Debug, Clone, Copy, PartialEq, Eq, Hash, Structural)]
pub struct Queen {
    pub color: PieceColor,
    pub position: Position,
}

#[derive(Debug, Clone, Copy, PartialEq, Eq, Hash, Structural)]
pub struct King {
    pub color: PieceColor,
    pub position: Position,
    pub has_moved: bool,
}

/// A chess piece: its kind, with the color, the square and, for pawns, rooks and
/// kings, whether it has moved.
#[derive(Debug, Clone, Copy, PartialEq, Eq, Hash, Structural)]
pub enum Piece {
    Pawn(Pawn),
    Knight(Knight),
    Bishop(Bishop),
    Rook(Rook),
    Queen(Queen),
    King(King),
}

/// The other color.
pub open spec fn opponent(c: PieceColor) -> PieceColor {
    match c {
        PieceColor::White => PieceColor::Black,
        PieceColor::Black => PieceColor::White,
    }
}

/// The letter that names a color in board notation.
pub open spec fn color_letter(c: PieceColor) -> char {
    match c {
        PieceColor::White => 'W',
        PieceColor::Black => 'B',
    }
}

/// The letter that names a kind of piece in board notation.
pub open spec fn kind_letter(k: PieceType) -> char {
    match k {
        PieceType::Pawn => 'P',
        PieceType::Knight => 'N',
        PieceType::Bishop => 'B',
        PieceType::Rook => 'R',
        PieceType::Queen => 'Q',
        PieceType::King => 'K',
    }
}

/// The chess symbol of a piece of this kind and color (U+2654 to U+265F).
pub open spec fn glyph(k: PieceType, c: PieceColor) -> char {
    match (c, k) {
        (PieceColor::White, PieceType::King) => '\u{2654}',
        (PieceColor::White, PieceType::Queen) => '\u{2655}',
        (PieceColor::White, PieceType::Rook) => '\u{2656}',
        (PieceColor::White, PieceType::Bishop) => '\u{2657}',
        (PieceColor::White, PieceType::Knight) => '\u{2658}',
        (PieceColor::White, PieceType::Pawn) => '\u{2659}',
        (PieceColor::Black, PieceType::King) => '\u{265A}',
        (PieceColor::Black, PieceType::Queen) => '\u{265B}',
        (PieceColor::Black, PieceType::Rook) => '\u{265C}',
        (PieceColor::Black, PieceType::Bishop) => '\u{265D}',
        (PieceColor::Black, PieceType::Knight) => '\u{265E}',
        (PieceColor::Black, PieceType::Pawn) => '\u{265F}',
    }
}

pub fn color_letter_of(c: PieceColor) -> (r: char)
    ensures
        r == color_letter(c),
{
    match c {
        PieceColor::White => 'W',
        PieceColor::Black => 'B',
    }
}

pub fn kind_letter_of(k: PieceType) -> (r: char)
    ensures
        r == kind_letter(k),
{
    match k {
        PieceType::Pawn => 'P',
        PieceType::Knight => 'N',
        PieceType::Bishop => 'B',
        PieceType::Rook => 'R',
        PieceType::Queen => 'Q',
        PieceType::King => 'K',
    }
}

pub fn glyph_of(k: PieceType, c: PieceColor) -> (r: char)
    ensures
        r == glyph(k, c),
{
    match (c, k) {
        (PieceColor::White, PieceType::King) => '\u{2654}',
        (PieceColor::White, PieceType::Queen) => '\u{2655}',
        (PieceColor::White, PieceType::Rook) => '\u{2656}',
        (PieceColor::White, PieceType::Bishop) => '\u{2657}',
        (PieceColor::White, PieceType::Knight) => '\u{2658}',
        (PieceColor::White, PieceType::Pawn) => '\u{2659}',
        (PieceColor::Black, PieceType::King) => '\u{265A}',
        (PieceColor::Black, PieceType::Queen) => '\u{265B}',
        (PieceColor::Black, PieceType::Rook) => '\u{265C}',
        (PieceColor::Black, PieceType::Bishop) => '\u{265D}',
        (PieceColor::Black, PieceType::Knight) => '\u{265E}',
        (PieceColor::Black, PieceType::Pawn) => '\u{265F}',
    }
}

/// The piece that `Piece::new` makes: one that has not moved.
pub open spec fn fresh_piece(k: PieceType, c: PieceColor, p: Position) -> Piece {
    match k {
        PieceType::Pawn => Piece::Pawn(Pawn { color: c, position: p, has_moved: false }),
        PieceType::Knight => Piece::Knight(Knight { color: c, position: p }),
        PieceType::Bishop => Piece::Bishop(Bishop { color: c, position: p }),
        PieceType::Rook => Piece::Rook(Rook { color: c, position: p, has_moved: false }),
        PieceType::Queen => Piece::Queen(Queen { color: c, position: p }),
        PieceType::King => Piece::King(King { color: c, position: p, has_moved: false }),
    }
}

impl Piece {
    pub open spec fn color_of(self) -> PieceColor {
        match self {
            Piece::Pawn(p) => p.color,
            Piece::Knight(k) => k.color,
            Piece::Bishop(b) => b.color,
            Piece::Rook(r) => r.color,
            Piece::Queen(q) => q.color,
            Piece::King(k) => k.color,
        }
    }

    pub open spec fn kind_of(self) -> PieceType {
        match self {
            Piece::Pawn(_) => PieceType::Pawn,
            Piece::Knight(_) => PieceType::Knight,
            Piece::Bishop(_) => PieceType::Bishop,
            Piece::Rook(_) => PieceType::Rook,
            Piece::Queen(_) => PieceType::Queen,
            Piece::King(_) => PieceType::King,
        }
    }

    pub open spec fn pos_of(self) -> Position {
        match self {
            Piece::Pawn(p) => p.position,
            Piece::Knight(k) => k.position,
            Piece::Bishop(b) => b.position,
            Piece::Rook(r) => r.position,
            Piece::Queen(q) => q.position,
            Piece::King(k) => k.position,
        }
    }

    /// The same piece standing on `p`; everything else is kept.
    pub open spec fn moved_to(self, p: Position) -> Piece {
        match self {
            Piece::Pawn(x) => Piece::Pawn(Pawn { position: p, ..x }),
            Piece::Knight(x) => Piece::Knight(Knight { position: p, ..x }),
            Piece::Bishop(x) => Piece::Bishop(Bishop { position: p, ..x }),
            Piece::Rook(x) => Piece::Rook(Rook { position: p, ..x }),
            Piece::Queen(x) => Piece::Queen(Queen { position: p, ..x }),
            Piece::King(x) => Piece::King(King { position: p, ..x }),
        }
    }

    /// The piece as text: its symbol, " at " and its square.
    pub open spec fn text(self) -> Seq<char> {
        seq![glyph(self.kind_of(), self.color_of()), ' ', 'a', 't', ' '] + self.pos_of().text()
    }

    pub fn new(piece_type: PieceType, color: PieceColor, position: Position) -> (r: Self)
        ensures
            r == fresh_piece(piece_type, color, position),
            r.kind_of() == piece_type,
            r.color_of() == color,
            r.pos_of() == position,
    {
        match piece_type {
            PieceType::Pawn => Piece::Pawn(Pawn { color, position, has_moved: false }),
            PieceType::Knight => Piece::Knight(Knight { color, position }),
            PieceType::Bishop => Piece::Bishop(Bishop { color, position }),
            PieceType::Rook => Piece::Rook(Rook { color, position, has_moved: false }),
            PieceType::Queen => Piece::Queen(Queen { color, position }),
            PieceType::King => Piece::King(King { color, position, has_moved: false }),
        }
    }

    pub fn get_color(&self) -> (c: PieceColor)
        ensures
            c == self.color_of(),
    {
        match self {
            Piece::Pawn(p) => p.color,
            Piece::Knight(k) => k.color,
            Piece::Bishop(b) => b.color,
            Piece::Rook(r) => r.color,
            Piece::Queen(q) => q.color,
            Piece::King(k) => k.color,
        }
    }

    pub fn get_type(&self) -> (k: PieceType)
        ensures
            k == self.kind_of(),
    {
        match self {
            Piece::Pawn(_) => PieceType::Pawn,
            Piece::Knight(_) => PieceType::Knight,
            Piece::Bishop(_) => PieceType::Bishop,
            Piece::Rook(_) => PieceType::Rook,
            Piece::Queen(_) => PieceType::Queen,
            Piece::King(_) => PieceType::King,
        }
    }

    pub fn get_position(&self) -> (p: Position)
        ensures
            p == self.pos_of(),
    {
        match self {
            Piece::Pawn(p) => p.position,
            Piece::Knight(k) => k.position,
            Piece::Bishop(b) => b.position,
            Piece::Rook(r) => r.position,
            Piece::Queen(q) => q.position,
            Piece::King(k) => k.position,
        }
    }

    pub fn set_position(&mut self, new_position: Position)
        ensures
            *final(self) == old(self).moved_to(new_position),
    {
        match self {
            Piece::Pawn(p) => p.position = new_position,
            Piece::Knight(k) => k.position = new_position,
            Piece::Bishop(b) => b.position = new_position,
            Piece::Rook(r) => r.position = new_position,
            Piece::Queen(q) => q.position = new_position,
            Piece::King(k) => k.position = new_position,
        }
    }

    /// The piece as text, such as "♘ at g1".
    pub fn to_string(&self) -> (s: String)
        ensures
            s@ == self.text(),
    {
        let mut s = String::new();
        s.push(glyph_of(self.get_type(), self.get_color()));
        s.push(' ');
        s.push('a');
        s.push('t');
        s.push(' ');
        let pos = self.get_position().to_string();
        push_chars(&mut s, pos.as_str());
        s
    }
}

/// The path of the image file that shows a piece of this color and kind.
pub open spec fn piece_file_path(color: PieceColor, piece_type: PieceType) -> Seq<char> {
    "assets/pieces/"@ + seq![color_letter(color), kind_letter(piece_type)] + ".png"@
}

/// The path of the image file that shows a piece, such as "assets/pieces/WN.png".
pub fn piece_filename(color: PieceColor, piece_type: PieceType) -> (s: String)
    ensures
        s@ == piece_file_path(color, piece_type),
{
    let mut s = String::new();
    push_chars(&mut s, "assets/pieces/");
    s.push(color_letter_of(color));
    s.push(kind_letter_of(piece_type));
    push_chars(&mut s, ".png");
    s
}

} // verus!
