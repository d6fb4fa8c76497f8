//! What the candidate moves of knights, kings and pawns are, stated square by square.
use vstd::prelude::*;

use crate::notation::MoveNotation;
use crate::piece::{Piece, PieceColor, PieceType};
use crate::position::{lemma_relative_compose, lemma_square_indices, Position};
use crate::rules::{
    enemy_at, friendly_at, jump, jumps, king_offsets, knight_offsets, move_of, occupied,
    pseudo_moves, pawn_advances, pawn_capture, pawn_moves, occupant, in_check, king_index,
    is_king_of, attacks, ray, rays, ray_room, scaled, unit_direction, rook_directions,
    bishop_directions, rook_like, bishop_like,
};

verus! {

/// `(df, dr)` is the jump of a knight: one square in one direction and two in the other.
pub open spec fn knight_jump(df: int, dr: int) -> bool {
    ||| (df == 1 || df == -1) && (dr == 2 || dr == -2)
    ||| (df == 2 || df == -2) && (dr == 1 || dr == -1)
}

/// `(df, dr)` is a step of a king: at most one square in each direction, and not none.
pub open spec fn king_step(df: int, dr: int) -> bool {
    -1 <= df <= 1 && -1 <= dr <= 1 && !(df == 0 && dr == 0)
}

/// Some candidate move of the list ends on `t`.
pub open spec fn reaches(ms: Seq<MoveNotation>, t: Position) -> bool {
    exists|k: int| 0 <= k < ms.len() && (#[trigger] ms[k]).moving_to_position == t
}

proof fn lemma_jumps_complete(s: Seq<Piece>, piece: Piece, offsets: Seq<(int, int)>, i: int)
    requires
        0 <= i < offsets.len(),
        piece.pos_of().relative(offsets[i].0, offsets[i].1) is Some,
        !friendly_at(s, piece, piece.pos_of().relative(offsets[i].0, offsets[i].1).unwrap()),
    ensures
        reaches(jumps(s, piece, offsets), piece.pos_of().relative(offsets[i].0, offsets[i].1).unwrap()),
    decreases offsets.len(),
{
    let t = piece.pos_of().relative(offsets[i].0, offsets[i].1).unwrap();
    let init = offsets.drop_last();
    let a = jumps(s, piece, init);
    let b = jump(s, piece, offsets.last().0, offsets.last().1);
    assert(jumps(s, piece, offsets) == a + b);
    if i == offsets.len() - 1 {
        assert(b[0] == move_of(s, piece, t));
        assert((a + b)[a.len() as int] == b[0]);
    } else {
        assert(init[i] == offsets[i]);
        lemma_jumps_complete(s, piece, init, i);
        let k = choose|k: int| 0 <= k < a.len() && (#[trigger] a[k]).moving_to_position == t;
        assert((a + b)[k] == a[k]);
    }
}

proof fn lemma_jumps_sound(s: Seq<Piece>, piece: Piece, offsets: Seq<(int, int)>, k: int)
    requires
        0 <= k < jumps(s, piece, offsets).len(),
    ensures
        exists|i: int|
            0 <= i < offsets.len() && piece.pos_of().relative(#[trigger] offsets[i].0, offsets[i].1)
                == Some(jumps(s, piece, offsets)[k].moving_to_position),
    decreases offsets.len(),
{
    let init = offsets.drop_last();
    let a = jumps(s, piece, init);
    let b = jump(s, piece, offsets.last().0, offsets.last().1);
    assert(jumps(s, piece, offsets) == a + b);
    if k < a.len() {
        assert((a + b)[k] == a[k]);
        lemma_jumps_sound(s, piece, init, k);
        let i = choose|i: int|
            0 <= i < init.len() && piece.pos_of().relative(#[trigger] init[i].0, init[i].1)
                == Some(a[k].moving_to_position);
        assert(init[i] == offsets[i]);
    } else {
        assert((a + b)[k] == b[k - a.len()]);
        assert(offsets[offsets.len() - 1] == offsets.last());
    }
}

/// A knight's candidate moves are exactly its jumps: every square of the board one file
/// and two ranks, or two files and one rank, away from it that holds no piece of its color
/// is reached, and every move it has ends on such a square.
pub proof fn lemma_knight_moves(s: Seq<Piece>, piece: Piece)
    requires
        piece.kind_of() == PieceType::Knight,
    ensures
        forall|df: int, dr: int|
            knight_jump(df, dr) && (#[trigger] piece.pos_of().relative(df, dr)) is Some && !friendly_at(
                s,
                piece,
                piece.pos_of().relative(df, dr).unwrap(),
            ) ==> reaches(pseudo_moves(s, piece), piece.pos_of().relative(df, dr).unwrap()),
        forall|k: int|
            0 <= k < pseudo_moves(s, piece).len() ==> exists|df: int, dr: int|
                knight_jump(df, dr) && #[trigger] piece.pos_of().relative(df, dr) == Some(
                    (#[trigger] pseudo_moves(s, piece)[k]).moving_to_position,
                ),
{
    reveal(pseudo_moves);
    let o = knight_offsets();
    assert(pseudo_moves(s, piece) == jumps(s, piece, o));
    assert forall|df: int, dr: int|
        knight_jump(df, dr) && (#[trigger] piece.pos_of().relative(df, dr)) is Some && !friendly_at(
            s,
            piece,
            piece.pos_of().relative(df, dr).unwrap(),
        ) implies reaches(pseudo_moves(s, piece), piece.pos_of().relative(df, dr).unwrap()) by {
        let i = if df == 2 && dr == 1 {
            0
        } else if df == 1 && dr == 2 {
            1
        } else if df == -1 && dr == 2 {
            2
        } else if df == -2 && dr == 1 {
            3
        } else if df == -2 && dr == -1 {
            4
        } else if df == -1 && dr == -2 {
            5
        } else if df == 1 && dr == -2 {
            6
        } else {
            7
        };
        assert(o[i] == (df, dr));
        lemma_jumps_complete(s, piece, o, i);
    }
    assert forall|k: int| 0 <= k < pseudo_moves(s, piece).len() implies exists|df: int, dr: int|
        knight_jump(df, dr) && #[trigger] piece.pos_of().relative(df, dr) == Some(
            (#[trigger] pseudo_moves(s, piece)[k]).moving_to_position,
        ) by {
        lemma_jumps_sound(s, piece, o, k);
        let i = choose|i: int|
            0 <= i < o.len() && piece.pos_of().relative(#[trigger] o[i].0, o[i].1) == Some(
                jumps(s, piece, o)[k].moving_to_position,
            );
        assert(knight_jump(o[i].0, o[i].1));
    }
}

/// A king's candidate moves are exactly its steps: every square of the board next to it
/// (also diagonally) that holds no piece of its color is reached, and every move it has
/// ends on such a square.
pub proof fn lemma_king_moves(s: Seq<Piece>, piece: Piece)
    requires
        piece.kind_of() == PieceType::King,
    ensures
        forall|df: int, dr: int|
            king_step(df, dr) && (#[trigger] piece.pos_of().relative(df, dr)) is Some && !friendly_at(
                s,
                piece,
                piece.pos_of().relative(df, dr).unwrap(),
            ) ==> reaches(pseudo_moves(s, piece), piece.pos_of().relative(df, dr).unwrap()),
        forall|k: int|
            0 <= k < pseudo_moves(s, piece).len() ==> exists|df: int, dr: int|
                king_step(df, dr) && #[trigger] piece.pos_of().relative(df, dr) == Some(
                    (#[trigger] pseudo_moves(s, piece)[k]).moving_to_position,
                ),
{
    reveal(pseudo_moves);
    let o = king_offsets();
    assert(pseudo_moves(s, piece) == jumps(s, piece, o));
    assert forall|df: int, dr: int|
        king_step(df, dr) && (#[trigger] piece.pos_of().relative(df, dr)) is Some && !friendly_at(
            s,
            piece,
            piece.pos_of().relative(df, dr).unwrap(),
        ) implies reaches(pseudo_moves(s, piece), piece.pos_of().relative(df, dr).unwrap()) by {
        let i = if df == 1 && dr == 0 {
            0
        } else if df == 1 && dr == 1 {
            1
        } else if df == 0 && dr == 1 {
            2
        } else if df == -1 && dr == 1 {
            3
        } else if df == -1 && dr == 0 {
            4
        } else if df == -1 && dr == -1 {
            5
        } else if df == 0 && dr == -1 {
            6
        } else {
            7
        };
        assert(o[i] == (df, dr));
        lemma_jumps_complete(s, piece, o, i);
    }
    assert forall|k: int| 0 <= k < pseudo_moves(s, piece).len() implies exists|df: int, dr: int|
        king_step(df, dr) && #[trigger] piece.pos_of().relative(df, dr) == Some(
            (#[trigger] pseudo_moves(s, piece)[k]).moving_to_position,
        ) by {
        lemma_jumps_sound(s, piece, o, k);
        let i = choose|i: int|
            0 <= i < o.len() && piece.pos_of().relative(#[trigger] o[i].0, o[i].1) == Some(
                jumps(s, piece, o)[k].moving_to_position,
            );
        assert(king_step(o[i].0, o[i].1));
    }
}

/// The rank direction in which a pawn of this color moves: up for white, down for black.
pub open spec fn forward(c: PieceColor) -> int {
    if c == PieceColor::White {
        1
    } else {
        -1
    }
}

/// The candidate moves of a pawn, square by square. Each one is a step straight ahead onto
/// an empty square; or, from rank 2 for white and rank 7 for black, two steps straight
/// ahead when both squares are empty (it never passes over a piece); or a diagonal step
/// ahead onto a piece of the other color. And each such square is reached.
pub proof fn lemma_pawn_moves(s: Seq<Piece>, piece: Piece)
    requires
        piece.kind_of() == PieceType::Pawn,
    ensures
        ({
            let p = piece.pos_of();
            let d = forward(piece.color_of());
            let start = if piece.color_of() == PieceColor::White { 2int } else { 7int };
            let ms = pseudo_moves(s, piece);
            &&& forall|k: int|
                0 <= k < ms.len() ==> {
                    let t = (#[trigger] ms[k]).moving_to_position;
                    ||| p.relative(0, d) == Some(t) && !occupied(s, t)
                    ||| p.rank == start && p.relative(0, d) is Some && !occupied(
                        s,
                        p.relative(0, d).unwrap(),
                    ) && p.relative(0, 2 * d) == Some(t) && !occupied(s, t)
                    ||| (p.relative(-1, d) == Some(t) || p.relative(1, d) == Some(t)) && enemy_at(
                        s,
                        piece,
                        t,
                    )
                }
            &&& p.relative(0, d) is Some && !occupied(s, p.relative(0, d).unwrap()) ==> reaches(
                ms,
                p.relative(0, d).unwrap(),
            )
            &&& p.rank == start && p.relative(0, d) is Some && !occupied(s, p.relative(0, d).unwrap())
                && p.relative(0, 2 * d) is Some && !occupied(s, p.relative(0, 2 * d).unwrap())
                ==> reaches(ms, p.relative(0, 2 * d).unwrap())
            &&& p.relative(-1, d) is Some && enemy_at(s, piece, p.relative(-1, d).unwrap()) ==> reaches(
                ms,
                p.relative(-1, d).unwrap(),
            )
            &&& p.relative(1, d) is Some && enemy_at(s, piece, p.relative(1, d).unwrap()) ==> reaches(
                ms,
                p.relative(1, d).unwrap(),
            )
        }),
{
    reveal(pseudo_moves);
    let p = piece.pos_of();
    let d = forward(piece.color_of());
    let ms = pseudo_moves(s, piece);
    let adv = pawn_advances(s, piece);
    let cl = pawn_capture(s, piece, -1);
    let cr = pawn_capture(s, piece, 1);
    assert(ms == adv + cl + cr);
    assert(crate::rules::pawn_direction(piece.color_of()) == d);
    if let Some(f) = p.relative(0, d) {
        lemma_relative_compose(p, 0, d, 0, d);
        assert(f.relative(0, d) == p.relative(0, 2 * d));
    }
    let single: Seq<MoveNotation> = match p.relative(0, d) {
        Some(f) => if occupied(s, f) { seq![] } else { seq![move_of(s, piece, f)] },
        None => seq![],
    };
    assert(adv.len() >= single.len());
    assert forall|k: int| 0 <= k < ms.len() implies {
        let t = (#[trigger] ms[k]).moving_to_position;
        ||| p.relative(0, d) == Some(t) && !occupied(s, t)
        ||| p.rank == (if piece.color_of() == PieceColor::White { 2int } else { 7int }) && p.relative(0, d) is Some
            && !occupied(s, p.relative(0, d).unwrap()) && p.relative(0, 2 * d) == Some(t) && !occupied(s, t)
        ||| (p.relative(-1, d) == Some(t) || p.relative(1, d) == Some(t)) && enemy_at(s, piece, t)
    } by {
        if k < adv.len() {
            assert(ms[k] == adv[k]);
        } else if k < adv.len() + cl.len() {
            assert(ms[k] == cl[k - adv.len()]);
        } else {
            assert(ms[k] == cr[k - adv.len() - cl.len()]);
        }
    }
    if let Some(f) = p.relative(0, d) {
        if !occupied(s, f) {
            assert(ms[0] == adv[0]);
            assert(ms[0].moving_to_position == f);
        }
        if p.rank == (if piece.color_of() == PieceColor::White { 2int } else { 7int }) && !occupied(s, f) {
            if let Some(g) = p.relative(0, 2 * d) {
                if !occupied(s, g) {
                    assert(ms[1] == adv[1]);
                    assert(ms[1].moving_to_position == g);
                }
            }
        }
    }
    if let Some(t) = p.relative(-1, d) {
        if enemy_at(s, piece, t) {
            assert(ms[adv.len() as int] == cl[0]);
            assert(ms[adv.len() as int].moving_to_position == t);
        }
    }
    if let Some(t) = p.relative(1, d) {
        if enemy_at(s, piece, t) {
            let k: int = (adv.len() + cl.len()) as int;
            assert(ms[k] == cr[0]);
            assert(ms[k].moving_to_position == t);
        }
    }
}

/// A king is in check exactly when some piece of the other color, of whatever kind (pawns
/// included), has a candidate move that ends on the king's square (for a color with one king).
pub proof fn lemma_in_check_attacked(s: Seq<Piece>, c: PieceColor, i: int)
    requires
        0 <= i < s.len(),
        s[i].color_of() == c,
        s[i].kind_of() == PieceType::King,
        forall|i2: int|
            0 <= i2 < s.len() && (#[trigger] s[i2]).color_of() == c && s[i2].kind_of() == PieceType::King
                ==> i2 == i,
    ensures
        in_check(s, c) <==> exists|j: int|
            0 <= j < s.len() && (#[trigger] s[j]).color_of() != c && reaches(
                pseudo_moves(s, s[j]),
                s[i].pos_of(),
            ),
{
    reveal(in_check);
    assert(is_king_of(s[i], c));
    assert forall|j: int| 0 <= j < i implies !is_king_of(#[trigger] s[j], c) by {}
    let w = king_index(s, c);
    assert(is_king_of(s[w], c));
    assert(w == i);
    assert forall|j: int| 0 <= j < s.len() implies #[trigger] attacks(s, s[j], s[i].pos_of()) == reaches(
        pseudo_moves(s, s[j]),
        s[i].pos_of(),
    ) by {}
}

/// `d * k` for a direction component `d` in {-1, 0, 1}.
pub open spec fn times(d: int, k: int) -> int {
    if d == 1 {
        k
    } else if d == -1 {
        -k
    } else {
        0
    }
}

/// The square `k` steps from `p` in direction `(df, dr)`, if it is on the board.
pub open spec fn step_square(p: Position, df: int, dr: int, k: int) -> Option<Position> {
    p.relative(times(df, k), times(dr, k))
}

/// The squares 1 to `n - 1` steps from `p` in direction `(df, dr)` are on the board and empty.
pub open spec fn path_clear(s: Seq<Piece>, p: Position, df: int, dr: int, n: int) -> bool {
    forall|k: int|
        1 <= k < n ==> (#[trigger] step_square(p, df, dr, k)) is Some && !occupied(
            s,
            step_square(p, df, dr, k).unwrap(),
        )
}

/// The directions in which a piece of this kind moves along lines: along files and ranks
/// for a rook, along diagonals for a bishop, both for a queen, none for the others.
pub open spec fn line_direction(kind: PieceType, df: int, dr: int) -> bool {
    let straight = (df == 0 && (dr == 1 || dr == -1)) || (dr == 0 && (df == 1 || df == -1));
    let diagonal = (df == 1 || df == -1) && (dr == 1 || dr == -1);
    match kind {
        PieceType::Rook => straight,
        PieceType::Bishop => diagonal,
        PieceType::Queen => straight || diagonal,
        _ => false,
    }
}

proof fn lemma_ray_complete(s: Seq<Piece>, piece: Piece, df: int, dr: int, step: int, n: int)
    requires
        unit_direction(df, dr),
        1 <= step <= n,
        forall|k: int|
            step <= k < n ==> (#[trigger] step_square(piece.pos_of(), df, dr, k)) is Some && !occupied(
                s,
                step_square(piece.pos_of(), df, dr, k).unwrap(),
            ),
        step_square(piece.pos_of(), df, dr, n) is Some,
        !friendly_at(s, piece, step_square(piece.pos_of(), df, dr, n).unwrap()),
    ensures
        reaches(ray(s, piece, df, dr, step), step_square(piece.pos_of(), df, dr, n).unwrap()),
    decreases n - step,
{
    let p = piece.pos_of();
    let r = ray(s, piece, df, dr, step);
    assert(scaled(df, step) == times(df, step) && scaled(dr, step) == times(dr, step));
    let t = step_square(p, df, dr, step).unwrap();
    if step == n {
        assert(r[0] == move_of(s, piece, t));
    } else {
        assert(step_square(p, df, dr, step) is Some);
        assert(!occupied(s, t));
        lemma_ray_complete(s, piece, df, dr, step + 1, n);
        let rest = ray(s, piece, df, dr, step + 1);
        assert(r == seq![move_of(s, piece, t)] + rest);
        let k = choose|k: int|
            0 <= k < rest.len() && (#[trigger] rest[k]).moving_to_position == step_square(p, df, dr, n).unwrap();
        assert(r[k + 1] == rest[k]);
    }
}

proof fn lemma_ray_sound(s: Seq<Piece>, piece: Piece, df: int, dr: int, step: int, k: int)
    requires
        step >= 1,
        0 <= k < ray(s, piece, df, dr, step).len(),
    ensures
        exists|n: int|
            n >= step && (forall|m: int|
                step <= m < n ==> (#[trigger] step_square(piece.pos_of(), df, dr, m)) is Some && !occupied(
                    s,
                    step_square(piece.pos_of(), df, dr, m).unwrap(),
                )) && #[trigger] step_square(piece.pos_of(), df, dr, n) == Some(
                ray(s, piece, df, dr, step)[k].moving_to_position,
            ) && !friendly_at(s, piece, ray(s, piece, df, dr, step)[k].moving_to_position),
    decreases ray_room(piece.pos_of(), df, dr, step),
{
    let p = piece.pos_of();
    let r = ray(s, piece, df, dr, step);
    assert(scaled(df, step) == times(df, step) && scaled(dr, step) == times(dr, step));
    let t = step_square(p, df, dr, step).unwrap();
    if k == 0 {
        assert(r[0].moving_to_position == t);
        assert(step_square(p, df, dr, step) == Some(r[0].moving_to_position));
    } else {
        let rest = ray(s, piece, df, dr, step + 1);
        assert(r == seq![move_of(s, piece, t)] + rest);
        assert(r[k] == rest[k - 1]);
        lemma_ray_sound(s, piece, df, dr, step + 1, k - 1);
        let n = choose|n: int|
            n >= step + 1 && (forall|m: int|
                step + 1 <= m < n ==> (#[trigger] step_square(p, df, dr, m)) is Some && !occupied(
                    s,
                    step_square(p, df, dr, m).unwrap(),
                )) && #[trigger] step_square(p, df, dr, n) == Some(rest[k - 1].moving_to_position)
                && !friendly_at(s, piece, rest[k - 1].moving_to_position);
        assert(forall|m: int|
            step <= m < n ==> (#[trigger] step_square(p, df, dr, m)) is Some && !occupied(
                s,
                step_square(p, df, dr, m).unwrap(),
            ));
    }
}

proof fn lemma_rays_complete(s: Seq<Piece>, piece: Piece, dirs: Seq<(int, int)>, i: int, n: int)
    requires
        0 <= i < dirs.len(),
        unit_direction(dirs[i].0, dirs[i].1),
        n >= 1,
        path_clear(s, piece.pos_of(), dirs[i].0, dirs[i].1, n),
        step_square(piece.pos_of(), dirs[i].0, dirs[i].1, n) is Some,
        !friendly_at(s, piece, step_square(piece.pos_of(), dirs[i].0, dirs[i].1, n).unwrap()),
    ensures
        reaches(rays(s, piece, dirs), step_square(piece.pos_of(), dirs[i].0, dirs[i].1, n).unwrap()),
    decreases dirs.len(),
{
    let t = step_square(piece.pos_of(), dirs[i].0, dirs[i].1, n).unwrap();
    let init = dirs.drop_last();
    let a = rays(s, piece, init);
    let b = ray(s, piece, dirs.last().0, dirs.last().1, 1);
    assert(rays(s, piece, dirs) == a + b);
    if i == dirs.len() - 1 {
        assert(dirs[i] == dirs.last());
        lemma_ray_complete(s, piece, dirs[i].0, dirs[i].1, 1, n);
        let k = choose|k: int| 0 <= k < b.len() && (#[trigger] b[k]).moving_to_position == t;
        assert((a + b)[a.len() + k] == b[k]);
    } else {
        assert(init[i] == dirs[i]);
        lemma_rays_complete(s, piece, init, i, n);
        let k = choose|k: int| 0 <= k < a.len() && (#[trigger] a[k]).moving_to_position == t;
        assert((a + b)[k] == a[k]);
    }
}

proof fn lemma_rays_sound(s: Seq<Piece>, piece: Piece, dirs: Seq<(int, int)>, k: int)
    requires
        0 <= k < rays(s, piece, dirs).len(),
    ensures
        exists|i: int, n: int|
            0 <= i < dirs.len() && n >= 1 && path_clear(s, piece.pos_of(), dirs[i].0, dirs[i].1, n)
                && #[trigger] step_square(piece.pos_of(), dirs[i].0, dirs[i].1, n) == Some(
                rays(s, piece, dirs)[k].moving_to_position,
            ) && !friendly_at(s, piece, rays(s, piece, dirs)[k].moving_to_position),
    decreases dirs.len(),
{
    let init = dirs.drop_last();
    let a = rays(s, piece, init);
    let b = ray(s, piece, dirs.last().0, dirs.last().1, 1);
    assert(rays(s, piece, dirs) == a + b);
    if k < a.len() {
        assert((a + b)[k] == a[k]);
        lemma_rays_sound(s, piece, init, k);
        let (i, n) = choose|i: int, n: int|
            0 <= i < init.len() && n >= 1 && path_clear(s, piece.pos_of(), init[i].0, init[i].1, n)
                && #[trigger] step_square(piece.pos_of(), init[i].0, init[i].1, n) == Some(
                a[k].moving_to_position,
            ) && !friendly_at(s, piece, a[k].moving_to_position);
        assert(init[i] == dirs[i]);
    } else {
        let j = k - a.len();
        assert((a + b)[k] == b[j]);
        lemma_ray_sound(s, piece, dirs.last().0, dirs.last().1, 1, j);
        let i = dirs.len() - 1;
        assert(dirs[i] == dirs.last());
        let n = choose|n: int|
            n >= 1 && (forall|m: int|
                1 <= m < n ==> (#[trigger] step_square(piece.pos_of(), dirs.last().0, dirs.last().1, m)) is Some
                    && !occupied(s, step_square(piece.pos_of(), dirs.last().0, dirs.last().1, m).unwrap()))
                && #[trigger] step_square(piece.pos_of(), dirs.last().0, dirs.last().1, n) == Some(
                b[j].moving_to_position,
            ) && !friendly_at(s, piece, b[j].moving_to_position);
        assert(path_clear(s, piece.pos_of(), dirs[i].0, dirs[i].1, n));
    }
}

proof fn lemma_line_index(kind: PieceType, df: int, dr: int) -> (i: int)
    requires
        kind == PieceType::Rook || kind == PieceType::Bishop,
        line_direction(kind, df, dr),
    ensures
        kind == PieceType::Rook ==> 0 <= i < 4 && rook_directions()[i] == (df, dr),
        kind == PieceType::Bishop ==> 0 <= i < 4 && bishop_directions()[i] == (df, dr),
{
    if kind == PieceType::Rook {
        if df == 1 { 0 } else if df == -1 { 1 } else if dr == 1 { 2 } else { 3 }
    } else {
        if df == 1 && dr == 1 { 0 } else if df == 1 { 1 } else if dr == 1 { 2 } else { 3 }
    }
}

/// The candidate moves of a rook, a bishop or a queen, square by square: a square is
/// reached exactly when it lies some steps away along one of the piece's line directions,
/// every square before it on that line is empty, and it holds no piece of the piece's
/// color. So such a piece never passes over a piece, stops at the first one, and may take
/// it when it is of the other color.
pub proof fn lemma_line_moves(s: Seq<Piece>, piece: Piece)
    requires
        piece.kind_of() == PieceType::Rook || piece.kind_of() == PieceType::Bishop || piece.kind_of()
            == PieceType::Queen,
    ensures
        forall|df: int, dr: int, n: int|
            line_direction(piece.kind_of(), df, dr) && n >= 1 && path_clear(s, piece.pos_of(), df, dr, n)
                && (#[trigger] step_square(piece.pos_of(), df, dr, n)) is Some && !friendly_at(
                s,
                piece,
                step_square(piece.pos_of(), df, dr, n).unwrap(),
            ) ==> reaches(pseudo_moves(s, piece), step_square(piece.pos_of(), df, dr, n).unwrap()),
        forall|k: int|
            0 <= k < pseudo_moves(s, piece).len() ==> exists|df: int, dr: int, n: int|
                line_direction(piece.kind_of(), df, dr) && n >= 1 && path_clear(
                    s,
                    piece.pos_of(),
                    df,
                    dr,
                    n,
                ) && #[trigger] step_square(piece.pos_of(), df, dr, n) == Some(
                    (#[trigger] pseudo_moves(s, piece)[k]).moving_to_position,
                ) && !friendly_at(s, piece, pseudo_moves(s, piece)[k].moving_to_position),
{
    reveal(pseudo_moves);
    let ms = pseudo_moves(s, piece);
    let rd = rook_directions();
    let bd = bishop_directions();
    let rp = rook_like(piece);
    let bp = bishop_like(piece);
    assert forall|df: int, dr: int, n: int|
        line_direction(piece.kind_of(), df, dr) && n >= 1 && path_clear(s, piece.pos_of(), df, dr, n)
            && (#[trigger] step_square(piece.pos_of(), df, dr, n)) is Some && !friendly_at(
            s,
            piece,
            step_square(piece.pos_of(), df, dr, n).unwrap(),
        ) implies reaches(ms, step_square(piece.pos_of(), df, dr, n).unwrap()) by {
        let t = step_square(piece.pos_of(), df, dr, n).unwrap();
        match piece {
            Piece::Rook(_) => {
                let i = lemma_line_index(PieceType::Rook, df, dr);
                lemma_rays_complete(s, piece, rd, i, n);
            },
            Piece::Bishop(_) => {
                let i = lemma_line_index(PieceType::Bishop, df, dr);
                lemma_rays_complete(s, piece, bd, i, n);
            },
            _ => {
                let a = rays(s, rp, rd);
                let b = rays(s, bp, bd);
                assert(ms == a + b);
                if line_direction(PieceType::Rook, df, dr) {
                    let i = lemma_line_index(PieceType::Rook, df, dr);
                    lemma_rays_complete(s, rp, rd, i, n);
                    let k = choose|k: int| 0 <= k < a.len() && (#[trigger] a[k]).moving_to_position == t;
                    assert(ms[k] == a[k]);
                } else {
                    let i = lemma_line_index(PieceType::Bishop, df, dr);
                    lemma_rays_complete(s, bp, bd, i, n);
                    let k = choose|k: int| 0 <= k < b.len() && (#[trigger] b[k]).moving_to_position == t;
                    assert(ms[a.len() + k] == b[k]);
                }
            },
        }
    }
    assert forall|k: int| 0 <= k < ms.len() implies exists|df: int, dr: int, n: int|
        line_direction(piece.kind_of(), df, dr) && n >= 1 && path_clear(s, piece.pos_of(), df, dr, n)
            && #[trigger] step_square(piece.pos_of(), df, dr, n) == Some(
            (#[trigger] ms[k]).moving_to_position,
        ) && !friendly_at(s, piece, ms[k].moving_to_position) by {
        let (x, dirs, j) = match piece {
            Piece::Rook(_) => (piece, rd, k),
            Piece::Bishop(_) => (piece, bd, k),
            _ => {
                let a = rays(s, rp, rd);
                if k < a.len() {
                    (rp, rd, k)
                } else {
                    (bp, bd, k - a.len())
                }
            },
        };
        let a = rays(s, rp, rd);
        let b = rays(s, bp, bd);
        if piece.kind_of() == PieceType::Queen {
            assert(ms == a + b);
            if k < a.len() {
                assert(ms[k] == a[k]);
            } else {
                assert(ms[k] == b[k - a.len()]);
            }
        }
        assert(rays(s, x, dirs)[j] == ms[k]);
        lemma_rays_sound(s, x, dirs, j);
        let (i, n) = choose|i: int, n: int|
            0 <= i < dirs.len() && n >= 1 && path_clear(s, x.pos_of(), dirs[i].0, dirs[i].1, n)
                && #[trigger] step_square(x.pos_of(), dirs[i].0, dirs[i].1, n) == Some(
                rays(s, x, dirs)[j].moving_to_position,
            ) && !friendly_at(s, x, rays(s, x, dirs)[j].moving_to_position);
        assert(line_direction(piece.kind_of(), dirs[i].0, dirs[i].1));
    }
}

} // verus!
