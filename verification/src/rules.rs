//! The rules of the board as mathematics: where the pieces stand, which squares
//! each piece reaches, what a move does to the board, and when a king is in check.
use vstd::prelude::*;

use crate::notation::MoveNotation;
use crate::piece::{opponent, Piece, PieceColor, PieceType};
use crate::position::{square, Position};

verus! {

// ---------------------------------------------------------------------------
// Occupancy
// ---------------------------------------------------------------------------

/// No two pieces stand on the same square.
pub open spec fn distinct_squares(s: Seq<Piece>) -> bool {
    forall|i: int, j: int|
        0 <= i < s.len() && 0 <= j < s.len() && i != j ==> #[trigger] s[i].pos_of()
            != #[trigger] s[j].pos_of()
}

/// Some piece stands on `pos`.
pub open spec fn occupied(s: Seq<Piece>, pos: Position) -> bool {
    exists|i: int| 0 <= i < s.len() && (#[trigger] s[i]).pos_of() == pos
}

/// The index of the piece that stands on `pos` (meaningful when `occupied(s, pos)`).
pub open spec fn index_at(s: Seq<Piece>, pos: Position) -> int {
    choose|i: int| 0 <= i < s.len() && (#[trigger] s[i]).pos_of() == pos
}

/// The piece on `pos`, if any.
pub open spec fn occupant(s: Seq<Piece>, pos: Position) -> Option<Piece> {
    if occupied(s, pos) {
        Some(s[index_at(s, pos)])
    } else {
        None
    }
}

/// The pieces without the one on `pos` (unchanged when the square is empty).
pub open spec fn without_square(s: Seq<Piece>, pos: Position) -> Seq<Piece> {
    if occupied(s, pos) {
        s.remove(index_at(s, pos))
    } else {
        s
    }
}

/// The pieces with `p` placed on its square, replacing whatever stood there.
pub open spec fn placed(s: Seq<Piece>, p: Piece) -> Seq<Piece> {
    without_square(s, p.pos_of()).push(p)
}

// ---------------------------------------------------------------------------
// Candidate moves ("pseudo targets": moves that ignore the safety of the own king)
// ---------------------------------------------------------------------------

/// The move of `piece` to `to`: a capture exactly when a piece of the other color stands there.
pub open spec fn move_of(s: Seq<Piece>, piece: Piece, to: Position) -> MoveNotation {
    MoveNotation {
        moving_piece_color: piece.color_of(),
        moving_piece_type: piece.kind_of(),
        moving_from_position: piece.pos_of(),
        is_check: false,
        is_self_check: false,
        is_capture: match occupant(s, to) {
            Some(q) => q.color_of() != piece.color_of(),
            None => false,
        },
        moving_to_position: to,
    }
}

/// A piece of the same color as `piece` stands on `to`.
pub open spec fn friendly_at(s: Seq<Piece>, piece: Piece, to: Position) -> bool {
    occupant(s, to) matches Some(q) && q.color_of() == piece.color_of()
}

/// A piece of the other color stands on `to`.
pub open spec fn enemy_at(s: Seq<Piece>, piece: Piece, to: Position) -> bool {
    occupant(s, to) matches Some(q) && q.color_of() != piece.color_of()
}

/// The move, if any, that a jump by `(df, dr)` gives: onto the board and not onto a
/// piece of the own color.
pub open spec fn jump(s: Seq<Piece>, piece: Piece, df: int, dr: int) -> Seq<MoveNotation> {
    match piece.pos_of().relative(df, dr) {
        Some(t) => if friendly_at(s, piece, t) {
            seq![]
        } else {
            seq![move_of(s, piece, t)]
        },
        None => seq![],
    }
}

/// The moves of the jumps by each offset in turn.
pub open spec fn jumps(s: Seq<Piece>, piece: Piece, offsets: Seq<(int, int)>) -> Seq<MoveNotation>
    decreases offsets.len(),
{
    if offsets.len() == 0 {
        seq![]
    } else {
        jumps(s, piece, offsets.drop_last()) + jump(s, piece, offsets.last().0, offsets.last().1)
    }
}

pub open spec fn knight_offsets() -> Seq<(int, int)> {
    seq![(2, 1), (1, 2), (-1, 2), (-2, 1), (-2, -1), (-1, -2), (1, -2), (2, -1)]
}

pub open spec fn king_offsets() -> Seq<(int, int)> {
    seq![(1, 0), (1, 1), (0, 1), (-1, 1), (-1, 0), (-1, -1), (0, -1), (1, -1)]
}

pub open spec fn rook_directions() -> Seq<(int, int)> {
    seq![(1, 0), (-1, 0), (0, 1), (0, -1)]
}

pub open spec fn bishop_directions() -> Seq<(int, int)> {
    seq![(1, 1), (1, -1), (-1, 1), (-1, -1)]
}

/// `d * step` for a direction component `d` in {-1, 0, 1}.
pub open spec fn scaled(d: int, step: int) -> int {
    if d > 0 {
        step
    } else if d < 0 {
        -step
    } else {
        0
    }
}

/// A direction of a line piece: each component in {-1, 0, 1}, not both 0.
pub open spec fn unit_direction(df: int, dr: int) -> bool {
    -1 <= df <= 1 && -1 <= dr <= 1 && (df != 0 || dr != 0)
}

/// How many more squares, at most, a line from `p` in direction `(df, dr)` still has
/// on the board after `step` steps.
pub open spec fn ray_room(p: Position, df: int, dr: int, step: int) -> int {
    let nf = p.file_index() + scaled(df, step);
    let nr = p.rank_index() + scaled(dr, step);
    let m = if df > 0 {
        8 - nf
    } else if df < 0 {
        nf + 1
    } else if dr > 0 {
        8 - nr
    } else {
        nr + 1
    };
    if m < 0 {
        0
    } else {
        m
    }
}

/// The moves along a line from the `step`-th square on: every empty square, up to and
/// including the first occupied one if it holds a piece of the other color.
pub open spec fn ray(s: Seq<Piece>, piece: Piece, df: int, dr: int, step: int) -> Seq<MoveNotation>
    decreases ray_room(piece.pos_of(), df, dr, step),
{
    if !unit_direction(df, dr) || step < 1 {
        seq![]
    } else {
        match piece.pos_of().relative(scaled(df, step), scaled(dr, step)) {
            None => seq![],
            Some(t) => match occupant(s, t) {
                Some(q) => if q.color_of() != piece.color_of() {
                    seq![move_of(s, piece, t)]
                } else {
                    seq![]
                },
                None => seq![move_of(s, piece, t)] + ray(s, piece, df, dr, step + 1),
            },
        }
    }
}

/// The moves along each direction in turn.
pub open spec fn rays(s: Seq<Piece>, piece: Piece, dirs: Seq<(int, int)>) -> Seq<MoveNotation>
    decreases dirs.len(),
{
    if dirs.len() == 0 {
        seq![]
    } else {
        rays(s, piece, dirs.drop_last()) + ray(s, piece, dirs.last().0, dirs.last().1, 1)
    }
}

/// The direction in which pawns of this color advance.
pub open spec fn pawn_direction(c: PieceColor) -> int {
    match c {
        PieceColor::White => 1,
        PieceColor::Black => -1,
    }
}

/// The rank from which pawns of this color may advance two squares.
pub open spec fn pawn_start_rank(c: PieceColor) -> int {
    match c {
        PieceColor::White => 2,
        PieceColor::Black => 7,
    }
}

/// A diagonal capture of a pawn toward file offset `df`.
pub open spec fn pawn_capture(s: Seq<Piece>, piece: Piece, df: int) -> Seq<MoveNotation> {
    match piece.pos_of().relative(df, pawn_direction(piece.color_of())) {
        Some(t) => if enemy_at(s, piece, t) {
            seq![move_of(s, piece, t)]
        } else {
            seq![]
        },
        None => seq![],
    }
}

/// The straight moves of a pawn: one square ahead onto an empty square; from its start
/// rank, two squares ahead when both squares are empty.
pub open spec fn pawn_advances(s: Seq<Piece>, piece: Piece) -> Seq<MoveNotation> {
    let d = pawn_direction(piece.color_of());
    match piece.pos_of().relative(0, d) {
        Some(f) => {
            let single = if occupied(s, f) {
                seq![]
            } else {
                seq![move_of(s, piece, f)]
            };
            let double = if piece.pos_of().rank == pawn_start_rank(piece.color_of()) {
                match f.relative(0, d) {
                    Some(g) => if !occupied(s, g) && !occupied(s, f) {
                        seq![move_of(s, piece, g)]
                    } else {
                        seq![]
                    },
                    None => seq![],
                }
            } else {
                seq![]
            };
            single + double
        },
        None => seq![],
    }
}

/// The moves of a pawn: its straight moves, then its diagonal captures to the left and
/// to the right.
pub open spec fn pawn_moves(s: Seq<Piece>, piece: Piece) -> Seq<MoveNotation> {
    pawn_advances(s, piece) + pawn_capture(s, piece, -1) + pawn_capture(s, piece, 1)
}

/// The piece that line moves of a rook are generated for: the same color and square.
pub open spec fn rook_like(piece: Piece) -> Piece {
    Piece::Rook(crate::piece::Rook { color: piece.color_of(), position: piece.pos_of(), has_moved: false })
}

/// The piece that diagonal moves of a bishop are generated for: the same color and square.
pub open spec fn bishop_like(piece: Piece) -> Piece {
    Piece::Bishop(crate::piece::Bishop { color: piece.color_of(), position: piece.pos_of() })
}

/// The candidate moves of a piece, ignoring whether they expose the own king. A queen's
/// moves are its rook moves followed by its bishop moves, and are labelled with those kinds.
#[verifier::opaque]
pub open spec fn pseudo_moves(s: Seq<Piece>, piece: Piece) -> Seq<MoveNotation> {
    match piece {
        Piece::Pawn(_) => pawn_moves(s, piece),
        Piece::Knight(_) => jumps(s, piece, knight_offsets()),
        Piece::Bishop(_) => rays(s, piece, bishop_directions()),
        Piece::Rook(_) => rays(s, piece, rook_directions()),
        Piece::Queen(_) => rays(s, rook_like(piece), rook_directions()) + rays(
            s,
            bishop_like(piece),
            bishop_directions(),
        ),
        Piece::King(_) => jumps(s, piece, king_offsets()),
    }
}

/// Every offset of the list can be taken from `p` in `i8` arithmetic.
pub open spec fn offsets_fit(p: Position, offsets: Seq<(int, int)>) -> bool {
    forall|i: int| 0 <= i < offsets.len() ==> p.offset_fits(#[trigger] offsets[i].0, offsets[i].1)
}

/// The offsets whose squares computing a pawn's moves looks at first.
pub open spec fn pawn_offsets(c: PieceColor) -> Seq<(int, int)> {
    let d = pawn_direction(c);
    seq![(0, d), (-1, d), (1, d)]
}

/// The offsets that computing the moves of this piece takes from its square.
pub open spec fn probed_offsets(piece: Piece) -> Seq<(int, int)> {
    match piece {
        Piece::Pawn(_) => pawn_offsets(piece.color_of()),
        Piece::Knight(_) => knight_offsets(),
        Piece::Bishop(_) => bishop_directions(),
        Piece::Rook(_) => rook_directions(),
        Piece::Queen(_) => rook_directions() + bishop_directions(),
        Piece::King(_) => king_offsets(),
    }
}

/// The moves of this piece can be computed without `i8` overflow.
pub open spec fn moves_fit(piece: Piece) -> bool {
    offsets_fit(piece.pos_of(), probed_offsets(piece))
}

/// The moves of every piece of color `c` can be computed.
pub open spec fn color_fits(s: Seq<Piece>, c: PieceColor) -> bool {
    forall|i: int| 0 <= i < s.len() && (#[trigger] s[i]).color_of() == c ==> moves_fit(s[i])
}

// ---------------------------------------------------------------------------
// Check
// ---------------------------------------------------------------------------

pub open spec fn is_king_of(p: Piece, c: PieceColor) -> bool {
    p.color_of() == c && p.kind_of() == PieceType::King
}

/// Some king of color `c` is on the board.
pub open spec fn has_king(s: Seq<Piece>, c: PieceColor) -> bool {
    exists|i: int| 0 <= i < s.len() && is_king_of(#[trigger] s[i], c)
}

/// The index of the first king of color `c` in the list.
pub open spec fn king_index(s: Seq<Piece>, c: PieceColor) -> int {
    choose|i: int|
        0 <= i < s.len() && is_king_of(#[trigger] s[i], c) && forall|j: int|
            0 <= j < i ==> !is_king_of(#[trigger] s[j], c)
}

/// Some candidate move of `attacker` ends on `target`.
pub open spec fn attacks(s: Seq<Piece>, attacker: Piece, target: Position) -> bool {
    exists|k: int|
        0 <= k < pseudo_moves(s, attacker).len() && (#[trigger] pseudo_moves(
            s,
            attacker,
        )[k]).moving_to_position == target
}

/// The king of color `c` (the first one found) stands on a square that some piece of
/// the other color can move to.
#[verifier::opaque]
pub open spec fn in_check(s: Seq<Piece>, c: PieceColor) -> bool {
    let king = s[king_index(s, c)].pos_of();
    exists|j: int| 0 <= j < s.len() && (#[trigger] s[j]).color_of() != c && attacks(s, s[j], king)
}

/// Whether `in_check(s, c)` can be computed: a king of color `c` is there, and the
/// moves of every piece of the other color can be computed.
pub open spec fn check_defined(s: Seq<Piece>, c: PieceColor) -> bool {
    has_king(s, c) && color_fits(s, opponent(c))
}

// ---------------------------------------------------------------------------
// Making a move
// ---------------------------------------------------------------------------

/// A move can be carried out: a piece stands on its source square, and a capture has a
/// piece to take on another square.
pub open spec fn move_defined(s: Seq<Piece>, m: MoveNotation) -> bool {
    &&& occupied(s, m.moving_from_position)
    &&& m.is_capture ==> (occupied(s, m.moving_to_position) && m.moving_to_position
        != m.moving_from_position)
}

/// The pieces after a move: the piece on the source square goes to the target square,
/// and whatever stood on the target square leaves the board.
#[verifier::opaque]
pub open spec fn after_move(s: Seq<Piece>, m: MoveNotation) -> Seq<Piece> {
    let moved = occupant(s, m.moving_from_position).unwrap().moved_to(m.moving_to_position);
    placed(without_square(s, m.moving_from_position), moved)
}

// ---------------------------------------------------------------------------
// Legal moves
// ---------------------------------------------------------------------------

/// The candidate moves that do not leave the own king (color `c`) in check, each marked
/// as a check when it leaves the other king in check.
pub open spec fn legal_moves(s: Seq<Piece>, c: PieceColor, ms: Seq<MoveNotation>) -> Seq<MoveNotation>
    decreases ms.len(),
{
    if ms.len() == 0 {
        seq![]
    } else {
        let prev = legal_moves(s, c, ms.drop_last());
        let t = ms.last();
        let after = after_move(s, t);
        if in_check(after, c) {
            prev
        } else {
            prev.push(MoveNotation { is_check: in_check(after, opponent(c)), ..t })
        }
    }
}

/// Whether computing the legal moves of the moves `ms` of a piece of color `c` can go
/// through: each move can be carried out, the own king can be looked at afterwards, and
/// so can the other king when the move does not expose the own one.
pub open spec fn legal_defined(s: Seq<Piece>, c: PieceColor, ms: Seq<MoveNotation>) -> bool {
    forall|k: int|
        0 <= k < ms.len() ==> {
            let after = after_move(s, #[trigger] ms[k]);
            &&& move_defined(s, ms[k])
            &&& check_defined(after, c)
            &&& !in_check(after, c) ==> check_defined(after, opponent(c))
        }
}

/// The legal moves of `piece`.
#[verifier::opaque]
pub open spec fn legal_moves_of(s: Seq<Piece>, piece: Piece) -> Seq<MoveNotation> {
    legal_moves(s, piece.color_of(), pseudo_moves(s, piece))
}

/// Whether the legal moves of `piece` can be computed.
#[verifier::opaque]
pub open spec fn legal_moves_defined(s: Seq<Piece>, piece: Piece) -> bool {
    &&& moves_fit(piece)
    &&& legal_defined(s, piece.color_of(), pseudo_moves(s, piece))
}

// ---------------------------------------------------------------------------
// The pieces as a map from squares to pieces
// ---------------------------------------------------------------------------

/// With distinct squares, a piece in the list is the occupant of its own square.
pub proof fn lemma_occupant_of_member(s: Seq<Piece>, i: int)
    requires
        distinct_squares(s),
        0 <= i < s.len(),
    ensures
        occupied(s, s[i].pos_of()),
        index_at(s, s[i].pos_of()) == i,
        occupant(s, s[i].pos_of()) == Some(s[i]),
{
    let pos = s[i].pos_of();
    assert(occupied(s, pos));
    let k = index_at(s, pos);
    assert(s[k].pos_of() == s[i].pos_of());
}

/// Removing the piece of one square keeps the others where they are and leaves that
/// square empty.
pub proof fn lemma_without_square(s: Seq<Piece>, pos: Position)
    requires
        distinct_squares(s),
    ensures
        distinct_squares(without_square(s, pos)),
        !occupied(without_square(s, pos), pos),
        forall|q: Position| q != pos ==> #[trigger] occupant(without_square(s, pos), q) == occupant(s, q),
        without_square(s, pos).len() == if occupied(s, pos) { s.len() - 1 } else { s.len() as int },
        forall|i: int| 0 <= i < without_square(s, pos).len() ==> s.contains(#[trigger] without_square(s, pos)[i]),
{
    let t = without_square(s, pos);
    if occupied(s, pos) {
        let k = index_at(s, pos);
        assert(t =~= s.remove(k));
        assert forall|i: int| 0 <= i < t.len() implies #[trigger] t[i] == if i < k { s[i] } else { s[i + 1] } by {}
        assert forall|i: int, j: int| 0 <= i < t.len() && 0 <= j < t.len() && i != j implies
            #[trigger] t[i].pos_of() != #[trigger] t[j].pos_of() by {
            let i2 = if i < k { i } else { i + 1 };
            let j2 = if j < k { j } else { j + 1 };
            assert(t[i] == s[i2]);
            assert(t[j] == s[j2]);
            assert(s[i2].pos_of() != s[j2].pos_of());
        }
        if occupied(t, pos) {
            let w = index_at(t, pos);
            let w2 = if w < k { w } else { w + 1 };
            assert(t[w] == s[w2]);
            assert(s[w2].pos_of() == s[k].pos_of());
        }
        assert forall|q: Position| q != pos implies #[trigger] occupant(t, q) == occupant(s, q) by {
            if occupied(s, q) {
                let j = index_at(s, q);
                assert(j != k);
                let j2 = if j < k { j } else { j - 1 };
                assert(t[j2] == s[j]);
                lemma_occupant_of_member(t, j2);
            }
            if occupied(t, q) {
                let w = index_at(t, q);
                let w2 = if w < k { w } else { w + 1 };
                assert(t[w] == s[w2]);
                lemma_occupant_of_member(s, w2);
            }
        }
        assert forall|i: int| 0 <= i < t.len() implies s.contains(#[trigger] t[i]) by {
            let i2 = if i < k { i } else { i + 1 };
            assert(t[i] == s[i2]);
        }
    } else {
        assert forall|i: int| 0 <= i < t.len() implies s.contains(#[trigger] t[i]) by {
            assert(t[i] == s[i]);
        }
    }
}

/// Placing a piece puts it on its square and keeps every other square as it was.
pub proof fn lemma_placed(s: Seq<Piece>, p: Piece)
    requires
        distinct_squares(s),
    ensures
        distinct_squares(placed(s, p)),
        occupant(placed(s, p), p.pos_of()) == Some(p),
        forall|q: Position| q != p.pos_of() ==> #[trigger] occupant(placed(s, p), q) == occupant(s, q),
{
    let t = without_square(s, p.pos_of());
    lemma_without_square(s, p.pos_of());
    let u = t.push(p);
    assert forall|i: int, j: int| 0 <= i < u.len() && 0 <= j < u.len() && i != j implies
        #[trigger] u[i].pos_of() != #[trigger] u[j].pos_of() by {
        if i < t.len() && j < t.len() {
            assert(u[i] == t[i] && u[j] == t[j]);
        } else if i == t.len() {
            assert(u[j] == t[j]);
            if t[j].pos_of() == p.pos_of() {
                assert(occupied(t, p.pos_of()));
            }
        } else {
            assert(u[i] == t[i]);
            if t[i].pos_of() == p.pos_of() {
                assert(occupied(t, p.pos_of()));
            }
        }
    }
    assert(u[t.len() as int] == p);
    lemma_occupant_of_member(u, t.len() as int);
    assert forall|q: Position| q != p.pos_of() implies #[trigger] occupant(u, q) == occupant(s, q) by {
        assert(occupant(t, q) == occupant(s, q));
        if occupied(t, q) {
            let j = index_at(t, q);
            assert(u[j] == t[j]);
            lemma_occupant_of_member(u, j);
        }
        if occupied(u, q) {
            let w = index_at(u, q);
            assert(w < t.len());
            assert(u[w] == t[w]);
            lemma_occupant_of_member(t, w);
        }
    }
}

/// What a move does to the board: the moving piece stands on the target square, the
/// source square is empty (unless it is the target), every other square is unchanged,
/// and one piece fewer is on the board exactly when the target square was occupied by
/// another piece.
pub proof fn lemma_after_move(s: Seq<Piece>, m: MoveNotation)
    requires
        distinct_squares(s),
        occupied(s, m.moving_from_position),
    ensures
        distinct_squares(after_move(s, m)),
        occupant(after_move(s, m), m.moving_to_position) == Some(
            occupant(s, m.moving_from_position).unwrap().moved_to(m.moving_to_position),
        ),
        m.moving_from_position != m.moving_to_position ==> !occupied(
            after_move(s, m),
            m.moving_from_position,
        ),
        forall|q: Position|
            q != m.moving_from_position && q != m.moving_to_position ==> #[trigger] occupant(
                after_move(s, m),
                q,
            ) == occupant(s, q),
        after_move(s, m).len() == if occupied(s, m.moving_to_position) && m.moving_to_position
            != m.moving_from_position {
            s.len() - 1
        } else {
            s.len() as int
        },
{
    reveal(after_move);
    let from = m.moving_from_position;
    let to = m.moving_to_position;
    let moved = occupant(s, from).unwrap().moved_to(to);
    let t = without_square(s, from);
    lemma_without_square(s, from);
    lemma_without_square(t, to);
    lemma_placed(t, moved);
    assert(moved.pos_of() == to);
    if to != from {
        assert(occupant(t, to) == occupant(s, to));
        assert(!occupied(placed(t, moved), from)) by {
            assert(occupant(placed(t, moved), from) == occupant(t, from));
        }
    }
}

} // verus!
