//! The text form of a board: comma-separated tokens such as "WKe1", each giving a
//! color letter, a kind letter, a file letter and a rank.
use vstd::prelude::*;

use crate::board::{Board, GameTurn};
use crate::piece::{
    color_letter, color_letter_of, fresh_piece, kind_letter, kind_letter_of, Piece, PieceColor,
    PieceType,
};
use crate::position::Position;
use crate::rules::{distinct_squares, lemma_placed, occupant, occupied, placed, without_square};
use crate::text::{chars_of, decimal, push_decimal, trim_chars, trimmed};

verus! {

/// The pieces of text between commas, in order (one empty piece for empty text).
pub open spec fn split_commas(s: Seq<char>) -> Seq<Seq<char>>
    decreases s.len(),
{
    if s.len() == 0 {
        seq![Seq::<char>::empty()]
    } else {
        let init = split_commas(s.drop_last());
        if s.last() == ',' {
            init.push(Seq::<char>::empty())
        } else {
            init.update(init.len() - 1, init.last().push(s.last()))
        }
    }
}

/// The texts joined with a comma between each two.
pub open spec fn join_commas(ts: Seq<Seq<char>>) -> Seq<char>
    decreases ts.len(),
{
    if ts.len() == 0 {
        Seq::<char>::empty()
    } else if ts.len() == 1 {
        ts[0]
    } else {
        join_commas(ts.drop_last()) + seq![','] + ts.last()
    }
}

pub open spec fn is_kind_letter(c: char) -> bool {
    c == 'P' || c == 'N' || c == 'B' || c == 'R' || c == 'Q' || c == 'K'
}

/// The kind that a kind letter names.
pub open spec fn kind_of_letter(c: char) -> PieceType {
    if c == 'P' {
        PieceType::Pawn
    } else if c == 'N' {
        PieceType::Knight
    } else if c == 'B' {
        PieceType::Bishop
    } else if c == 'R' {
        PieceType::Rook
    } else if c == 'Q' {
        PieceType::Queen
    } else {
        PieceType::King
    }
}

/// A token that describes a piece: a color letter (`W` or `B`), a kind letter, a file
/// character of one byte and a rank digit; anything after the fourth character is ignored.
pub open spec fn token_valid(t: Seq<char>) -> bool {
    &&& t.len() >= 4
    &&& t[0] == 'W' || t[0] == 'B'
    &&& is_kind_letter(t[1])
    &&& (t[2] as u32) < 128
    &&& '0' <= t[3] <= '9'
}

/// Every token of the text describes a piece.
pub open spec fn notation_valid(s: Seq<char>) -> bool {
    forall|i: int| 0 <= i < split_commas(s).len() ==> token_valid(#[trigger] split_commas(s)[i])
}

/// The piece that a valid token describes; it has not moved.
pub open spec fn token_piece(t: Seq<char>) -> Piece {
    fresh_piece(
        kind_of_letter(t[1]),
        if t[0] == 'W' { PieceColor::White } else { PieceColor::Black },
        Position { file: t[2], rank: ((t[3] as u32) - 48) as u8 },
    )
}

/// The pieces of the tokens placed in turn; a later token replaces an earlier one on
/// the same square.
pub open spec fn pieces_from_tokens(ts: Seq<Seq<char>>) -> Seq<Piece>
    decreases ts.len(),
{
    if ts.len() == 0 {
        Seq::<Piece>::empty()
    } else {
        placed(pieces_from_tokens(ts.drop_last()), token_piece(ts.last()))
    }
}

/// The pieces that a board text describes.
pub open spec fn pieces_from_notation(s: Seq<char>) -> Seq<Piece> {
    pieces_from_tokens(split_commas(s))
}

/// The token of a piece: color letter, kind letter, file and rank in decimal.
pub open spec fn piece_token(p: Piece) -> Seq<char> {
    seq![color_letter(p.color_of()), kind_letter(p.kind_of()), p.pos_of().file] + decimal(
        p.pos_of().rank as nat,
    )
}

/// The text of a list of pieces: their tokens in order, joined with commas.
pub open spec fn notation_of(s: Seq<Piece>) -> Seq<char> {
    join_commas(tokens_of(s))
}

/// The tokens of a list of pieces, in order.
pub open spec fn tokens_of(s: Seq<Piece>) -> Seq<Seq<char>> {
    s.map_values(|p: Piece| piece_token(p))
}

/// The views of a list of character vectors.
pub open spec fn views(ts: Seq<Vec<char>>) -> Seq<Seq<char>> {
    Seq::new(ts.len(), |k: int| ts[k]@)
}

/// The text cut at each comma.
pub(crate) fn split_at_commas(chars: &Vec<char>) -> (r: Vec<Vec<char>>)
    ensures
        views(r@) == split_commas(chars@),
{
    let mut tokens: Vec<Vec<char>> = Vec::new();
    let mut cur: Vec<char> = Vec::new();
    let n = chars.len();
    let mut i: usize = 0;
    assert(chars@.take(0) =~= Seq::<char>::empty());
    assert(views(tokens@).push(cur@) =~= split_commas(chars@.take(0)));
    while i < n
        invariant
            n == chars@.len(),
            i <= n,
            views(tokens@).push(cur@) == split_commas(chars@.take(i as int)),
        decreases n - i,
    {
        let c = chars[i];
        let ghost before = chars@.take(i as int);
        proof {
            assert(chars@.take(i + 1).drop_last() =~= before);
            assert(chars@.take(i + 1).last() == c);
        }
        if c == ',' {
            let done = cur;
            tokens.push(done);
            cur = Vec::new();
            assert(views(tokens@).push(cur@) =~= split_commas(before).push(Seq::<char>::empty()));
        } else {
            let ghost old_tokens = views(tokens@);
            cur.push(c);
            assert(views(tokens@).push(cur@) =~= split_commas(before).update(
                split_commas(before).len() - 1,
                split_commas(before).last().push(c),
            ));
        }
        i = i + 1;
    }
    tokens.push(cur);
    assert(chars@.take(n as int) =~= chars@);
    assert(views(tokens@) =~= split_commas(chars@));
    tokens
}

/// The pieces that the characters of a valid board text describe.
fn pieces_from_chars(chars: &Vec<char>) -> (r: Vec<Piece>)
    requires
        notation_valid(chars@),
    ensures
        r@ == pieces_from_notation(chars@),
        distinct_squares(r@),
{
    let tokens = split_at_commas(chars);
    let ghost ts = views(tokens@);
    let mut board = Board {
        pieces: Vec::new(),
        piece_graveyard: Vec::new(),
        turn: GameTurn::WhiteTurn,
        selected_piece_location: None,
        selected_targets: Vec::new(),
    };
    let n = tokens.len();
    let mut i: usize = 0;
    assert(ts.take(0) =~= Seq::<Seq<char>>::empty());
    while i < n
        invariant
            ts == views(tokens@),
            ts == split_commas(chars@),
            notation_valid(chars@),
            n == ts.len(),
            i <= n,
            board.wf(),
            board.pieces@ == pieces_from_tokens(ts.take(i as int)),
        decreases n - i,
    {
        proof {
            assert(ts[i as int] == tokens@[i as int]@);
            assert(token_valid(split_commas(chars@)[i as int]));
            assert(ts.take(i + 1).drop_last() =~= ts.take(i as int));
        }
        let new_p = parse_piece(&tokens[i]);
        board.put_piece(new_p);
        i = i + 1;
    }
    assert(ts.take(n as int) =~= ts);
    board.pieces
}

/// The piece that a valid token describes.
fn parse_piece(t: &Vec<char>) -> (r: Piece)
    requires
        token_valid(t@),
    ensures
        r == token_piece(t@),
{
    let color = if t[0] == 'W' { PieceColor::White } else { PieceColor::Black };
    let c = t[1];
    let piece_type = if c == 'P' {
        PieceType::Pawn
    } else if c == 'N' {
        PieceType::Knight
    } else if c == 'B' {
        PieceType::Bishop
    } else if c == 'R' {
        PieceType::Rook
    } else if c == 'Q' {
        PieceType::Queen
    } else {
        PieceType::King
    };
    let file_char = t[2];
    let rank_char = t[3];
    let rank = ((rank_char as u32) - 48) as u8;
    Piece::new(piece_type, color, Position::new(file_char, rank))
}

impl Board {
    /// The pieces that a board text such as "WRa1,WKe1,BKe8" describes; a later token
    /// replaces an earlier one on the same square.
    pub fn generate_from_notation(notation: &str) -> (r: Vec<Piece>)
        requires
            notation_valid(notation@),
        ensures
            r@ == pieces_from_notation(notation@),
            distinct_squares(r@),
    {
        let chars = chars_of(notation);
        pieces_from_chars(&chars)
    }

    /// A new game from the text of a board file: the pieces that the text, without
    /// leading and trailing white space, describes; an empty graveyard; white to move;
    /// nothing selected.
    pub fn new(contents: &str) -> (b: Board)
        requires
            notation_valid(trimmed(contents@)),
        ensures
            b.wf(),
            b.pieces@ == pieces_from_notation(trimmed(contents@)),
            b.piece_graveyard@ == Seq::<Piece>::empty(),
            b.turn == GameTurn::WhiteTurn,
            b.selected_piece_location is None,
            b.selected_targets@ == Seq::<crate::notation::MoveNotation>::empty(),
    {
        let chars = chars_of(contents);
        let notation = trim_chars(&chars);
        Board {
            pieces: pieces_from_chars(&notation),
            piece_graveyard: Vec::new(),
            turn: GameTurn::default(),
            selected_piece_location: None,
            selected_targets: Vec::new(),
        }
    }

    /// The board as text: the token of each piece, in the order of the list, joined with
    /// commas, such as "WKe1,BKe8".
    pub fn to_notation(&self) -> (s: String)
        ensures
            s@ == notation_of(self.pieces@),
    {
        let ghost toks = tokens_of(self.pieces@);
        let mut s = String::new();
        let n = self.pieces.len();
        let mut i: usize = 0;
        while i < n
            invariant
                n == self.pieces@.len(),
                toks == tokens_of(self.pieces@),
                i <= n,
                s@ == join_commas(toks.take(i as int)),
            decreases n - i,
        {
            let piece = self.pieces[i];
            let ghost before = s@;
            if i > 0 {
                s.push(',');
            }
            s.push(color_letter_of(piece.get_color()));
            s.push(kind_letter_of(piece.get_type()));
            let pos = piece.get_position();
            s.push(pos.file);
            push_decimal(&mut s, pos.rank);
            proof {
                assert(toks.take(i + 1).drop_last() =~= toks.take(i as int));
                assert(toks.take(i + 1).last() == piece_token(piece));
                if i == 0 {
                    assert(toks.take(1) =~= seq![piece_token(piece)]);
                    assert(s@ =~= piece_token(piece));
                } else {
                    assert(s@ =~= before + seq![','] + piece_token(piece));
                }
            }
            i = i + 1;
        }
        assert(toks.take(n as int) =~= toks);
        s
    }
}

/// The text has no comma.
pub open spec fn comma_free(t: Seq<char>) -> bool {
    forall|i: int| 0 <= i < t.len() ==> t[i] != ','
}

proof fn lemma_split_nonempty(a: Seq<char>)
    ensures
        split_commas(a).len() >= 1,
    decreases a.len(),
{
    if a.len() > 0 {
        lemma_split_nonempty(a.drop_last());
    }
}

/// Appending text without a comma extends the last piece.
proof fn lemma_split_append(a: Seq<char>, b: Seq<char>)
    requires
        comma_free(b),
    ensures
        split_commas(a + b) == split_commas(a).update(
            split_commas(a).len() - 1,
            split_commas(a).last() + b,
        ),
    decreases b.len(),
{
    lemma_split_nonempty(a);
    if b.len() == 0 {
        assert(a + b =~= a);
        assert(split_commas(a).last() + b =~= split_commas(a).last());
        assert(split_commas(a).update(split_commas(a).len() - 1, split_commas(a).last())
            =~= split_commas(a));
    } else {
        let b2 = b.drop_last();
        assert forall|i: int| 0 <= i < b2.len() implies b2[i] != ',' by {
            assert(b2[i] == b[i]);
        }
        lemma_split_append(a, b2);
        assert((a + b).drop_last() =~= a + b2);
        assert((a + b).last() == b.last());
        assert(b[b.len() - 1] != ',');
        lemma_split_nonempty(a + b2);
        let x = split_commas(a + b2);
        let sa = split_commas(a);
        assert(x.len() == sa.len());
        assert(x.last() == sa.last() + b2);
        assert(split_commas(a + b) == x.update(x.len() - 1, x.last().push(b.last())));
        assert((sa.last() + b2).push(b.last()) =~= sa.last() + b);
        assert(split_commas(a + b) =~= split_commas(a).update(
            split_commas(a).len() - 1,
            split_commas(a).last() + b,
        ));
    }
}

/// Cutting comma-joined texts without commas at the commas gives the texts back.
pub proof fn lemma_split_join(ts: Seq<Seq<char>>)
    requires
        ts.len() >= 1,
        forall|i: int| 0 <= i < ts.len() ==> comma_free(#[trigger] ts[i]),
    ensures
        split_commas(join_commas(ts)) == ts,
    decreases ts.len(),
{
    if ts.len() == 1 {
        let e = Seq::<char>::empty();
        lemma_split_append(e, ts[0]);
        assert(e + ts[0] =~= ts[0]);
        assert(split_commas(e) =~= seq![e]);
        assert(seq![e].update(0, e + ts[0]) =~= ts);
    } else {
        let init = ts.drop_last();
        assert forall|i: int| 0 <= i < init.len() implies comma_free(#[trigger] init[i]) by {
            assert(init[i] == ts[i]);
        }
        lemma_split_join(init);
        let a = join_commas(init) + seq![','];
        assert(a.drop_last() =~= join_commas(init));
        assert(split_commas(a) =~= init.push(Seq::<char>::empty()));
        assert(ts[ts.len() - 1] == ts.last());
        lemma_split_append(a, ts.last());
        assert(Seq::<char>::empty() + ts.last() =~= ts.last());
        assert(init.push(Seq::<char>::empty()).update(init.len() as int, ts.last()) =~= ts);
    }
}

/// A piece with its kind, color and square, that has not moved.
pub open spec fn fresh_copy(p: Piece) -> Piece {
    fresh_piece(p.kind_of(), p.color_of(), p.pos_of())
}

/// A piece can be written in a token and read back: its file is one byte other than a
/// comma and its rank is a single digit.
pub open spec fn writable(p: Piece) -> bool {
    &&& (p.pos_of().file as u32) < 128
    &&& p.pos_of().file != ','
    &&& p.pos_of().rank <= 9
}

proof fn lemma_token_roundtrip(p: Piece)
    requires
        writable(p),
    ensures
        token_valid(piece_token(p)),
        comma_free(piece_token(p)),
        token_piece(piece_token(p)) == fresh_copy(p),
{
    reveal_with_fuel(decimal, 2);
    let t = piece_token(p);
    let r = p.pos_of().rank;
    assert(decimal(r as nat) == seq![crate::text::digit_char(r as int)]);
    assert(t =~= seq![color_letter(p.color_of()), kind_letter(p.kind_of()), p.pos_of().file, crate::text::digit_char(r as int)]);
    assert(((t[3] as u32) - 48) as u8 == r);
    assert(Position { file: t[2], rank: ((t[3] as u32) - 48) as u8 } == p.pos_of());
}

proof fn lemma_pieces_from_tokens_map(s: Seq<Piece>, k: int)
    requires
        distinct_squares(s),
        0 <= k <= s.len(),
        forall|i: int| 0 <= i < s.len() ==> writable(#[trigger] s[i]),
    ensures
        distinct_squares(pieces_from_tokens(tokens_of(s).take(k))),
        forall|pos: Position|
            #[trigger] occupant(pieces_from_tokens(tokens_of(s).take(k)), pos)
                == match occupant(s.take(k), pos) {
                Some(q) => Some(fresh_copy(q)),
                None => None,
            },
    decreases k,
{
    let toks = tokens_of(s);
    if k == 0 {
        assert(toks.take(0) =~= Seq::<Seq<char>>::empty());
        assert(s.take(0) =~= Seq::<Piece>::empty());
    } else {
        lemma_pieces_from_tokens_map(s, k - 1);
        let prev = pieces_from_tokens(toks.take(k - 1));
        assert(toks.take(k).drop_last() =~= toks.take(k - 1));
        assert(toks.take(k).last() == piece_token(s[k - 1]));
        lemma_token_roundtrip(s[k - 1]);
        let np = fresh_copy(s[k - 1]);
        assert(pieces_from_tokens(toks.take(k)) == placed(prev, np));
        lemma_placed(prev, np);
        let sk = s.take(k - 1);
        assert(distinct_squares(sk)) by {
            assert forall|i: int, j: int| 0 <= i < sk.len() && 0 <= j < sk.len() && i != j implies
                #[trigger] sk[i].pos_of() != #[trigger] sk[j].pos_of() by {
                assert(sk[i] == s[i] && sk[j] == s[j]);
            }
        }
        assert(!occupied(sk, s[k - 1].pos_of())) by {
            if occupied(sk, s[k - 1].pos_of()) {
                let w = crate::rules::index_at(sk, s[k - 1].pos_of());
                assert(sk[w] == s[w]);
            }
        }
        assert(without_square(sk, s[k - 1].pos_of()) == sk);
        assert(s.take(k) =~= placed(sk, s[k - 1]));
        lemma_placed(sk, s[k - 1]);
    }
}

/// Writing a board as text and reading the text back gives the same pieces on the same
/// squares (as pieces that have not moved), provided the board is not empty and every
/// piece's file is a byte other than a comma and its rank a single digit.
pub proof fn lemma_notation_roundtrip(s: Seq<Piece>)
    requires
        distinct_squares(s),
        s.len() >= 1,
        forall|i: int| 0 <= i < s.len() ==> writable(#[trigger] s[i]),
    ensures
        notation_valid(notation_of(s)),
        distinct_squares(pieces_from_notation(notation_of(s))),
        forall|pos: Position|
            #[trigger] occupant(pieces_from_notation(notation_of(s)), pos) == match occupant(s, pos) {
                Some(q) => Some(fresh_copy(q)),
                None => None,
            },
{
    let toks = tokens_of(s);
    assert forall|i: int| 0 <= i < toks.len() implies comma_free(#[trigger] toks[i]) && token_valid(toks[i]) by {
        lemma_token_roundtrip(s[i]);
    }
    lemma_split_join(toks);
    lemma_pieces_from_tokens_map(s, s.len() as int);
    assert(toks.take(s.len() as int) =~= toks);
    assert(s.take(s.len() as int) =~= s);
}

/// How a token names a piece, read and written the same way: the first letter is `W` for
/// white and `B` for black; the second is `P`, `N`, `B`, `R`, `Q`, `K` for pawn, knight,
/// bishop, rook, queen, king; then come the file and the rank.
pub proof fn lemma_token_letters(t: Seq<char>, p: Piece)
    requires
        token_valid(t),
    ensures
        token_piece(t).color_of() == PieceColor::White <==> t[0] == 'W',
        token_piece(t).color_of() == PieceColor::Black <==> t[0] == 'B',
        token_piece(t).kind_of() == PieceType::Pawn <==> t[1] == 'P',
        token_piece(t).kind_of() == PieceType::Knight <==> t[1] == 'N',
        token_piece(t).kind_of() == PieceType::Bishop <==> t[1] == 'B',
        token_piece(t).kind_of() == PieceType::Rook <==> t[1] == 'R',
        token_piece(t).kind_of() == PieceType::Queen <==> t[1] == 'Q',
        token_piece(t).kind_of() == PieceType::King <==> t[1] == 'K',
        token_piece(t).pos_of().file == t[2],
        token_piece(t).pos_of().rank + 48 == t[3] as u32,
        piece_token(p)[0] == 'W' <==> p.color_of() == PieceColor::White,
        piece_token(p)[0] == 'B' <==> p.color_of() == PieceColor::Black,
        piece_token(p)[1] == 'P' <==> p.kind_of() == PieceType::Pawn,
        piece_token(p)[1] == 'N' <==> p.kind_of() == PieceType::Knight,
        piece_token(p)[1] == 'B' <==> p.kind_of() == PieceType::Bishop,
        piece_token(p)[1] == 'R' <==> p.kind_of() == PieceType::Rook,
        piece_token(p)[1] == 'Q' <==> p.kind_of() == PieceType::Queen,
        piece_token(p)[1] == 'K' <==> p.kind_of() == PieceType::King,
        piece_token(p)[2] == p.pos_of().file,
{
}

} // verus!
