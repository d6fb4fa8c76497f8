use vstd::prelude::*;

use crate::text::{decimal, push_decimal};

verus! {

/// A square of the board: a file letter and a rank number.
/// `a1` is the corner at file index 0 and rank index 0, `h8` the opposite corner.
#[derive(Debug, Clone, Copy, PartialEq, Eq, Hash, Structural)]
pub struct Position {
    pub file: char,
    pub rank: u8,
}

/// A byte read as a two's complement `i8`.
pub open spec fn byte_as_i8(b: int) -> int {
    if b >= 128 {
        b - 256
    } else {
        b
    }
}

/// Whether `x` is a value of `i8`.
pub open spec fn fits_i8(x: int) -> bool {
    -128 <= x <= 127
}

/// The square at file index `x` and rank index `y`.
pub open spec fn square(x: int, y: int) -> Position {
    Position { file: (97 + x) as char, rank: (y + 1) as u8 }
}

impl Position {
    /// The file index, counted from `a`, of the file letter read as a byte (`i8`).
    pub open spec fn file_index(self) -> int {
        byte_as_i8((self.file as u32 as int) % 256) - 97
    }

    /// The rank index, counted from rank 1, of the rank read as an `i8`.
    pub open spec fn rank_index(self) -> int {
        byte_as_i8(self.rank as int) - 1
    }

    /// Whether the square lies on the 8 x 8 board.
    pub open spec fn on_board(self) -> bool {
        &&& 'a' <= self.file <= 'h'
        &&& 1 <= self.rank <= 8
    }

    /// The offset `(df, dr)` from this square can be computed in `i8` arithmetic without overflow.
    pub open spec fn offset_fits(self, df: int, dr: int) -> bool {
        &&& fits_i8(self.file_index())
        &&& fits_i8(self.rank_index())
        &&& fits_i8(self.file_index() + df)
        &&& fits_i8(self.rank_index() + dr)
    }

    /// The square `df` files and `dr` ranks away, if it is on the board.
    pub open spec fn relative(self, df: int, dr: int) -> Option<Position> {
        let nf = self.file_index() + df;
        let nr = self.rank_index() + dr;
        if 0 <= nf < 8 && 0 <= nr < 8 {
            Some(square(nf, nr))
        } else {
            None
        }
    }

    /// The square as text: the file letter followed by the rank in decimal.
    pub open spec fn text(self) -> Seq<char> {
        seq![self.file] + decimal(self.rank as nat)
    }

    pub fn new(file: char, rank: u8) -> (p: Self)
        ensures
            p == (Position { file, rank }),
    {
        Self { file, rank }
    }

    /// Creates a Position from indexed coordinates: (0, 0) is a1, (7, 7) is h8.
    pub fn from_coordinates(x: u8, y: u8) -> (p: Self)
        requires
            97 + x <= 255,
            y < 255,
        ensures
            p.file as u32 == 97 + x,
            p.rank == y + 1,
            p == square(x as int, y as int),
    {
        let file_char = (97u8 + x) as char;
        Self { file: file_char, rank: y + 1 }
    }

    /// The square `df` files and `dr` ranks away, or `None` when it is off the board.
    pub fn get_relative_pos(&self, df: i8, dr: i8) -> (r: Option<Position>)
        requires
            self.offset_fits(df as int, dr as int),
        ensures
            r == self.relative(df as int, dr as int),
    {
        let fb: i16 = (self.file as u32 % 256) as i16;
        let fb: i16 = if fb >= 128 { fb - 256 } else { fb };
        let file_index: i16 = fb - 97;
        let rb: i16 = self.rank as i16;
        let rb: i16 = if rb >= 128 { rb - 256 } else { rb };
        let rank_index: i16 = rb - 1;
        let new_file: i16 = file_index + df as i16;
        let new_rank: i16 = rank_index + dr as i16;
        if 0 <= new_file && new_file < 8 && 0 <= new_rank && new_rank < 8 {
            Some(Position::from_coordinates(new_file as u8, new_rank as u8))
        } else {
            None
        }
    }

    /// The letter of the file at index `file` (0 is `a`).
    pub fn file_to_char(file: usize) -> (c: char)
        requires
            file < 8,
        ensures
            c as u32 == 97 + file,
    {
        match file + 1 {
            1 => 'a',
            2 => 'b',
            3 => 'c',
            4 => 'd',
            5 => 'e',
            6 => 'f',
            7 => 'g',
            _ => 'h',
        }
    }

    /// The digit of the rank at index `rank` (0 is `1`).
    pub fn rank_to_char(rank: usize) -> (c: char)
        requires
            rank < 8,
        ensures
            c as u32 == 49 + rank,
    {
        match rank + 1 {
            1 => '1',
            2 => '2',
            3 => '3',
            4 => '4',
            5 => '5',
            6 => '6',
            7 => '7',
            _ => '8',
        }
    }

    /// The square as text, such as `e4`.
    pub fn to_string(&self) -> (s: String)
        ensures
            s@ == self.text(),
    {
        let mut s = String::new();
        s.push(self.file);
        push_decimal(&mut s, self.rank);
        s
    }
}

/// Coordinates and squares correspond one to one on the board: the square at
/// indices `(x, y)` has file index `x` and rank index `y`, and every square on the
/// board is the square at its own indices.
pub proof fn lemma_square_indices(x: int, y: int, p: Position)
    requires
        0 <= x < 8,
        0 <= y < 8,
    ensures
        square(x, y).file_index() == x,
        square(x, y).rank_index() == y,
        square(x, y).on_board(),
        p.on_board() ==> square(p.file_index(), p.rank_index()) == p,
        p.on_board() ==> 0 <= p.file_index() < 8 && 0 <= p.rank_index() < 8,
{
    let q = square(x, y);
    assert(q.file as u32 == 97 + x);
    if p.on_board() {
        assert(square(p.file_index(), p.rank_index()).file as u32 == p.file as u32);
    }
}

/// Offsets compose: moving by `(a, b)` and then by `(c, d)` reaches the square that
/// moving by `(a + c, b + d)` reaches, whenever the intermediate square is on the board;
/// and moving by `(0, 0)` keeps a square of the board in place.
pub proof fn lemma_relative_compose(p: Position, a: int, b: int, c: int, d: int)
    ensures
        p.relative(a, b) matches Some(q) ==> q.relative(c, d) == p.relative(a + c, b + d),
        p.on_board() ==> p.relative(0, 0) == Some(p),
        p.relative(a, b) matches Some(q) ==> q.on_board(),
{
    if let Some(q) = p.relative(a, b) {
        lemma_square_indices(p.file_index() + a, p.rank_index() + b, p);
    }
    if p.on_board() {
        lemma_square_indices(0, 0, p);
    }
}

/// From a square of the board every small offset can be computed in `i8` arithmetic.
pub proof fn lemma_on_board_fits(p: Position, df: int, dr: int)
    requires
        p.on_board(),
        -100 <= df <= 100,
        -100 <= dr <= 100,
    ensures
        p.offset_fits(df, dr),
        0 <= p.file_index() < 8,
        0 <= p.rank_index() < 8,
{
    lemma_square_indices(0, 0, p);
}

} // verus!
