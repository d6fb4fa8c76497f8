//! Properties of the rules that hold for every board.
use vstd::prelude::*;

use crate::notation::MoveNotation;
use crate::piece::{Piece, PieceColor};
use crate::position::{lemma_square_indices, Position};
use crate::rules::{
    bishop_directions, bishop_like, distinct_squares, enemy_at, friendly_at, jump, jumps,
    king_offsets, knight_offsets, move_of, occupant, occupied, pawn_capture, pawn_direction,
    pawn_advances, pawn_moves, pawn_start_rank, pseudo_moves, ray, ray_room, rays, rook_directions, rook_like,
    scaled, unit_direction, after_move, in_check, legal_moves, legal_moves_of, move_defined,
    lemma_after_move,
};
use crate::piece::opponent;

verus! {

/// The shape of every candidate move of `piece`: it is made by a piece of that color from
/// the piece's square to another square of the board that holds no piece of that color;
/// it captures exactly when a piece of the other color stands there; it is not marked as
/// a check or a self-check.
pub open spec fn well_shaped(s: Seq<Piece>, piece: Piece, m: MoveNotation) -> bool {
    &&& m.moving_piece_color == piece.color_of()
    &&& m.moving_from_position == piece.pos_of()
    &&& m.moving_to_position.on_board()
    &&& m.moving_to_position != piece.pos_of()
    &&& !friendly_at(s, piece, m.moving_to_position)
    &&& m.is_capture == enemy_at(s, piece, m.moving_to_position)
    &&& !m.is_check
    &&& !m.is_self_check
}

pub open spec fn all_well_shaped(s: Seq<Piece>, piece: Piece, ms: Seq<MoveNotation>) -> bool {
    forall|k: int| 0 <= k < ms.len() ==> well_shaped(s, piece, #[trigger] ms[k])
}

proof fn lemma_relative_elsewhere(p: Position, df: int, dr: int)
    requires
        df != 0 || dr != 0,
    ensures
        p.relative(df, dr) matches Some(t) ==> t.on_board() && t != p,
{
    if let Some(t) = p.relative(df, dr) {
        lemma_square_indices(p.file_index() + df, p.rank_index() + dr, p);
    }
}

proof fn lemma_move_of_shape(s: Seq<Piece>, piece: Piece, t: Position)
    requires
        t.on_board(),
        t != piece.pos_of(),
        !friendly_at(s, piece, t),
    ensures
        well_shaped(s, piece, move_of(s, piece, t)),
{
}

proof fn lemma_jumps_shape(s: Seq<Piece>, piece: Piece, offsets: Seq<(int, int)>)
    requires
        forall|i: int| 0 <= i < offsets.len() ==> (#[trigger] offsets[i]).0 != 0 || offsets[i].1 != 0,
    ensures
        all_well_shaped(s, piece, jumps(s, piece, offsets)),
    decreases offsets.len(),
{
    if offsets.len() > 0 {
        let init = offsets.drop_last();
        assert forall|i: int| 0 <= i < init.len() implies (#[trigger] init[i]).0 != 0 || init[i].1 != 0 by {
            assert(init[i] == offsets[i]);
        }
        lemma_jumps_shape(s, piece, init);
        let (df, dr) = offsets.last();
        assert(offsets[offsets.len() - 1] == offsets.last());
        lemma_relative_elsewhere(piece.pos_of(), df, dr);
        if let Some(t) = piece.pos_of().relative(df, dr) {
            if !friendly_at(s, piece, t) {
                lemma_move_of_shape(s, piece, t);
            }
        }
        let a = jumps(s, piece, init);
        let b = jump(s, piece, df, dr);
        assert forall|k: int| 0 <= k < (a + b).len() implies well_shaped(s, piece, #[trigger] (a + b)[k]) by {
            if k < a.len() {
                assert((a + b)[k] == a[k]);
            } else {
                assert((a + b)[k] == b[k - a.len()]);
            }
        }
    }
}

proof fn lemma_ray_shape(s: Seq<Piece>, piece: Piece, df: int, dr: int, step: int)
    ensures
        all_well_shaped(s, piece, ray(s, piece, df, dr, step)),
    decreases ray_room(piece.pos_of(), df, dr, step),
{
    if unit_direction(df, dr) && step >= 1 {
        let p = piece.pos_of();
        let (a, b) = (scaled(df, step), scaled(dr, step));
        lemma_relative_elsewhere(p, a, b);
        if let Some(t) = p.relative(a, b) {
            match occupant(s, t) {
                Some(q) => {
                    if q.color_of() != piece.color_of() {
                        lemma_move_of_shape(s, piece, t);
                    }
                },
                None => {
                    lemma_move_of_shape(s, piece, t);
                    lemma_ray_shape(s, piece, df, dr, step + 1);
                    let x = seq![move_of(s, piece, t)];
                    let y = ray(s, piece, df, dr, step + 1);
                    assert forall|k: int| 0 <= k < (x + y).len() implies well_shaped(
                        s,
                        piece,
                        #[trigger] (x + y)[k],
                    ) by {
                        if k < 1 {
                            assert((x + y)[k] == x[k]);
                        } else {
                            assert((x + y)[k] == y[k - 1]);
                        }
                    }
                },
            }
        }
    }
}

proof fn lemma_rays_shape(s: Seq<Piece>, piece: Piece, dirs: Seq<(int, int)>)
    ensures
        all_well_shaped(s, piece, rays(s, piece, dirs)),
    decreases dirs.len(),
{
    if dirs.len() > 0 {
        lemma_rays_shape(s, piece, dirs.drop_last());
        lemma_ray_shape(s, piece, dirs.last().0, dirs.last().1, 1);
        let a = rays(s, piece, dirs.drop_last());
        let b = ray(s, piece, dirs.last().0, dirs.last().1, 1);
        assert forall|k: int| 0 <= k < (a + b).len() implies well_shaped(s, piece, #[trigger] (a + b)[k]) by {
            if k < a.len() {
                assert((a + b)[k] == a[k]);
            } else {
                assert((a + b)[k] == b[k - a.len()]);
            }
        }
    }
}

proof fn lemma_concat_shape(s: Seq<Piece>, piece: Piece, a: Seq<MoveNotation>, b: Seq<MoveNotation>)
    requires
        all_well_shaped(s, piece, a),
        all_well_shaped(s, piece, b),
    ensures
        all_well_shaped(s, piece, a + b),
{
    assert forall|k: int| 0 <= k < (a + b).len() implies well_shaped(s, piece, #[trigger] (a + b)[k]) by {
        if k < a.len() {
            assert((a + b)[k] == a[k]);
        } else {
            assert((a + b)[k] == b[k - a.len()]);
        }
    }
}

proof fn lemma_pawn_shape(s: Seq<Piece>, piece: Piece)
    ensures
        all_well_shaped(s, piece, pawn_moves(s, piece)),
{
    let p = piece.pos_of();
    let d = pawn_direction(piece.color_of());
    lemma_relative_elsewhere(p, 0, d);
    lemma_relative_elsewhere(p, -1, d);
    lemma_relative_elsewhere(p, 1, d);
    if let Some(f) = p.relative(0, d) {
        crate::position::lemma_relative_compose(p, 0, d, 0, d);
        lemma_relative_elsewhere(p, 0, 2 * d);
        if !occupied(s, f) {
            lemma_move_of_shape(s, piece, f);
        }
        if let Some(g) = f.relative(0, d) {
            if !occupied(s, g) {
                lemma_move_of_shape(s, piece, g);
            }
        }
        let single = if occupied(s, f) {
            Seq::<MoveNotation>::empty()
        } else {
            seq![move_of(s, piece, f)]
        };
        let double = if p.rank == pawn_start_rank(piece.color_of()) {
            match f.relative(0, d) {
                Some(g) => if !occupied(s, g) && !occupied(s, f) {
                    seq![move_of(s, piece, g)]
                } else {
                    seq![]
                },
                None => seq![],
            }
        } else {
            seq![]
        };
        lemma_concat_shape(s, piece, single, double);
    }
    if let Some(t) = p.relative(-1, d) {
        if enemy_at(s, piece, t) {
            lemma_move_of_shape(s, piece, t);
        }
    }
    if let Some(t) = p.relative(1, d) {
        if enemy_at(s, piece, t) {
            lemma_move_of_shape(s, piece, t);
        }
    }
    let ahead = pawn_advances(s, piece);
    lemma_concat_shape(s, piece, ahead, pawn_capture(s, piece, -1));
    lemma_concat_shape(s, piece, ahead + pawn_capture(s, piece, -1), pawn_capture(s, piece, 1));
}

/// Every candidate move of a piece starts on the piece's square, is made by a piece of its
/// color, ends on another square of the board that holds no piece of its color, captures
/// exactly when a piece of the other color stands there, and is marked neither as a check
/// nor as a self-check.
pub proof fn lemma_pseudo_moves_shape(s: Seq<Piece>, piece: Piece)
    ensures
        all_well_shaped(s, piece, pseudo_moves(s, piece)),
{
    reveal(pseudo_moves);
    match piece {
        Piece::Pawn(_) => lemma_pawn_shape(s, piece),
        Piece::Knight(_) => {
            let o = knight_offsets();
            assert forall|i: int| 0 <= i < o.len() implies (#[trigger] o[i]).0 != 0 || o[i].1 != 0 by {}
            lemma_jumps_shape(s, piece, o);
        },
        Piece::King(_) => {
            let o = king_offsets();
            assert forall|i: int| 0 <= i < o.len() implies (#[trigger] o[i]).0 != 0 || o[i].1 != 0 by {}
            lemma_jumps_shape(s, piece, o);
        },
        Piece::Bishop(_) => lemma_rays_shape(s, piece, bishop_directions()),
        Piece::Rook(_) => lemma_rays_shape(s, piece, rook_directions()),
        Piece::Queen(_) => {
            lemma_rays_shape(s, rook_like(piece), rook_directions());
            lemma_rays_shape(s, bishop_like(piece), bishop_directions());
            let a = rays(s, rook_like(piece), rook_directions());
            let b = rays(s, bishop_like(piece), bishop_directions());
            assert forall|k: int| 0 <= k < (a + b).len() implies well_shaped(s, piece, #[trigger] (a + b)[k]) by {
                if k < a.len() {
                    assert((a + b)[k] == a[k]);
                    assert(well_shaped(s, rook_like(piece), a[k]));
                } else {
                    assert((a + b)[k] == b[k - a.len()]);
                    assert(well_shaped(s, bishop_like(piece), b[k - a.len()]));
                }
            }
        },
    }
}

/// A candidate move of a piece that stands on the board can be carried out: the piece
/// reaches the target square, and the board loses a piece exactly when the move captures.
pub proof fn lemma_candidate_move(s: Seq<Piece>, piece: Piece, k: int)
    requires
        distinct_squares(s),
        occupant(s, piece.pos_of()) == Some(piece),
        0 <= k < pseudo_moves(s, piece).len(),
    ensures
        move_defined(s, pseudo_moves(s, piece)[k]),
        occupant(after_move(s, pseudo_moves(s, piece)[k]), pseudo_moves(s, piece)[k].moving_to_position)
            == Some(piece.moved_to(pseudo_moves(s, piece)[k].moving_to_position)),
        !occupied(after_move(s, pseudo_moves(s, piece)[k]), piece.pos_of()),
        after_move(s, pseudo_moves(s, piece)[k]).len() == s.len() - if pseudo_moves(
            s,
            piece,
        )[k].is_capture {
            1int
        } else {
            0
        },
{
    lemma_pseudo_moves_shape(s, piece);
    let m = pseudo_moves(s, piece)[k];
    assert(well_shaped(s, piece, m));
    lemma_after_move(s, m);
}

/// The move with its check mark set: whether, after it, the king of the other color
/// than `c` is in check.
pub open spec fn marked(s: Seq<Piece>, c: PieceColor, t: MoveNotation) -> MoveNotation {
    MoveNotation { is_check: in_check(after_move(s, t), opponent(c)), ..t }
}

/// The legal moves are exactly the candidate moves that do not leave the own king in
/// check, in their order, each marked as a check exactly when it leaves the other king in
/// check.
pub proof fn lemma_legal_moves(s: Seq<Piece>, c: PieceColor, ms: Seq<MoveNotation>)
    ensures
        legal_moves(s, c, ms).len() <= ms.len(),
        forall|k: int|
            0 <= k < legal_moves(s, c, ms).len() ==> exists|j: int|
                0 <= j < ms.len() && #[trigger] legal_moves(s, c, ms)[k] == marked(s, c, ms[j])
                    && !in_check(after_move(s, ms[j]), c),
        forall|j: int|
            0 <= j < ms.len() && !in_check(after_move(s, #[trigger] ms[j]), c) ==> exists|k: int|
                0 <= k < legal_moves(s, c, ms).len() && legal_moves(s, c, ms)[k] == marked(s, c, ms[j]),
    decreases ms.len(),
{
    if ms.len() > 0 {
        let init = ms.drop_last();
        lemma_legal_moves(s, c, init);
        let prev = legal_moves(s, c, init);
        let t = ms.last();
        let cur = legal_moves(s, c, ms);
        assert forall|k: int| 0 <= k < cur.len() implies exists|j: int|
            0 <= j < ms.len() && #[trigger] cur[k] == marked(s, c, ms[j]) && !in_check(after_move(s, ms[j]), c) by {
            if k < prev.len() {
                assert(cur[k] == prev[k]);
                let j = choose|j: int|
                    0 <= j < init.len() && #[trigger] prev[k] == marked(s, c, init[j]) && !in_check(
                        after_move(s, init[j]),
                        c,
                    );
                assert(init[j] == ms[j]);
            } else {
                assert(ms[ms.len() - 1] == t);
            }
        }
        assert forall|j: int| 0 <= j < ms.len() && !in_check(after_move(s, #[trigger] ms[j]), c) implies exists|k: int|
            0 <= k < cur.len() && cur[k] == marked(s, c, ms[j]) by {
            if j < init.len() {
                assert(init[j] == ms[j]);
                let k = choose|k: int| 0 <= k < prev.len() && prev[k] == marked(s, c, init[j]);
                assert(cur[k] == prev[k]);
            } else {
                assert(ms[j] == t);
                assert(cur[prev.len() as int] == marked(s, c, t));
            }
        }
    }
}

/// A legal move of a piece never leaves its own king in check, it is marked as a check
/// exactly when it leaves the other king in check, and apart from that mark it is one of
/// the piece's candidate moves.
pub proof fn lemma_legal_moves_of(s: Seq<Piece>, piece: Piece, k: int)
    requires
        0 <= k < legal_moves_of(s, piece).len(),
    ensures
        !in_check(after_move(s, legal_moves_of(s, piece)[k]), piece.color_of()),
        legal_moves_of(s, piece)[k].is_check == in_check(
            after_move(s, legal_moves_of(s, piece)[k]),
            opponent(piece.color_of()),
        ),
        exists|j: int|
            0 <= j < pseudo_moves(s, piece).len() && (MoveNotation {
                is_check: false,
                ..legal_moves_of(s, piece)[k]
            }) == pseudo_moves(s, piece)[j],
{
    reveal(legal_moves_of);
    let c = piece.color_of();
    let ms = pseudo_moves(s, piece);
    lemma_legal_moves(s, c, ms);
    lemma_pseudo_moves_shape(s, piece);
    let m = legal_moves_of(s, piece)[k];
    let j = choose|j: int|
        0 <= j < ms.len() && #[trigger] legal_moves(s, c, ms)[k] == marked(s, c, ms[j]) && !in_check(
            after_move(s, ms[j]),
            c,
        );
    assert(well_shaped(s, piece, ms[j]));
    assert(after_move(s, m) == after_move(s, ms[j])) by {
        reveal(after_move);
    }
    assert((MoveNotation { is_check: false, ..m }) == ms[j]);
}

/// A checkmated side has no way out: its king is in check, and every candidate move of
/// every one of its pieces leaves that king in check.
pub proof fn lemma_checkmate_no_escape(s: Seq<Piece>, c: PieceColor, i: int, k: int)
    requires
        crate::check::checkmated(s, c),
        0 <= i < s.len(),
        s[i].color_of() == c,
        0 <= k < pseudo_moves(s, s[i]).len(),
    ensures
        in_check(s, c),
        in_check(after_move(s, pseudo_moves(s, s[i])[k]), c),
{
    reveal(legal_moves_of);
    let ms = pseudo_moves(s, s[i]);
    lemma_legal_moves(s, c, ms);
    assert(legal_moves_of(s, s[i]).len() == 0);
    if !in_check(after_move(s, ms[k]), c) {
        let j = choose|j: int| 0 <= j < legal_moves(s, c, ms).len() && legal_moves(s, c, ms)[j] == marked(s, c, ms[k]);
    }
}

/// A side is checkmated exactly when its king is in check and every candidate move of
/// every one of its pieces leaves that king in check.
pub proof fn lemma_checkmate_iff(s: Seq<Piece>, c: PieceColor)
    ensures
        crate::check::checkmated(s, c) <==> in_check(s, c) && forall|i: int, k: int|
            0 <= i < s.len() && (#[trigger] s[i]).color_of() == c && 0 <= k < pseudo_moves(s, s[i]).len()
                ==> in_check(after_move(s, #[trigger] pseudo_moves(s, s[i])[k]), c),
{
    if crate::check::checkmated(s, c) {
        assert forall|i: int, k: int|
            0 <= i < s.len() && (#[trigger] s[i]).color_of() == c && 0 <= k < pseudo_moves(s, s[i]).len()
                implies in_check(after_move(s, #[trigger] pseudo_moves(s, s[i])[k]), c) by {
            lemma_checkmate_no_escape(s, c, i, k);
        }
    }
    if in_check(s, c) && forall|i: int, k: int|
        0 <= i < s.len() && (#[trigger] s[i]).color_of() == c && 0 <= k < pseudo_moves(s, s[i]).len()
            ==> in_check(after_move(s, #[trigger] pseudo_moves(s, s[i])[k]), c) {
        assert forall|i: int| 0 <= i < s.len() && (#[trigger] s[i]).color_of() == c implies legal_moves_of(
            s,
            s[i],
        ).len() == 0 by {
            reveal(legal_moves_of);
            let ms = pseudo_moves(s, s[i]);
            lemma_legal_moves(s, c, ms);
            if legal_moves(s, c, ms).len() > 0 {
                let j = choose|j: int|
                    0 <= j < ms.len() && #[trigger] legal_moves(s, c, ms)[0] == marked(s, c, ms[j])
                        && !in_check(after_move(s, ms[j]), c);
                assert(in_check(after_move(s, pseudo_moves(s, s[i])[j]), c));
            }
        }
    }
}

/// Turns alternate: the turn after a turn belongs to the other color, and two turns on it
/// is the same side's turn again.
pub proof fn lemma_turns_alternate(t: crate::board::GameTurn)
    ensures
        crate::board::next_turn(t) != t,
        crate::board::next_turn(crate::board::next_turn(t)) == t,
        crate::board::turn_color(crate::board::next_turn(t)) != crate::board::turn_color(t),
        crate::board::turn_color(t) == PieceColor::White <==> t == crate::board::GameTurn::WhiteTurn,
        opponent(crate::board::turn_color(t)) != crate::board::turn_color(t),
{
}

} // verus!
