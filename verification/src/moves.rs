//! Computing the candidate moves of each kind of piece.
use vstd::prelude::*;

use crate::board::Board;
use crate::notation::MoveNotation;
use crate::piece::{Bishop, King, Knight, Pawn, Piece, PieceColor, Queen, Rook};
use crate::position::{lemma_on_board_fits, lemma_relative_compose, Position};
use crate::rules::{
    bishop_directions, jumps, king_offsets, knight_offsets, moves_fit, offsets_fit, ray, rays,
    rook_directions, scaled, unit_direction, ray_room, pseudo_moves, probed_offsets
};

verus! {

/// Offsets in `i8` read as integers.
pub open spec fn widen(offs: Seq<(i8, i8)>) -> Seq<(int, int)> {
    Seq::new(offs.len(), |i: int| (offs[i].0 as int, offs[i].1 as int))
}

/// The jumps of `piece` by each of `offsets`, in order.
fn jump_moves(board: &Board, piece: Piece, offsets: &[(i8, i8)]) -> (r: Vec<MoveNotation>)
    requires
        board.wf(),
        offsets_fit(piece.pos_of(), widen(offsets@)),
    ensures
        r@ == jumps(board.pieces@, piece, widen(offsets@)),
{
    let ghost s = board.pieces@;
    let ghost offs = widen(offsets@);
    let mut targets: Vec<MoveNotation> = Vec::new();
    let pos = piece.get_position();
    let n = offsets.len();
    let mut i: usize = 0;
    assert(offs.take(0) =~= Seq::<(int, int)>::empty());
    while i < n
        invariant
            board.wf(),
            s == board.pieces@,
            offs == widen(offsets@),
            offsets_fit(piece.pos_of(), offs),
            pos == piece.pos_of(),
            n == offsets@.len(),
            i <= n,
            targets@ == jumps(s, piece, offs.take(i as int)),
        decreases n - i,
    {
        let (df, dr) = offsets[i];
        proof {
            assert(offs.take(i + 1).drop_last() =~= offs.take(i as int));
            assert(offs[i as int] == (df as int, dr as int));
            assert(pos.offset_fits(offs[i as int].0, offs[i as int].1));
        }
        if let Some(target) = pos.get_relative_pos(df, dr) {
            let blocked = match board.piece_at(target) {
                Some(p) => p.get_color() == piece.get_color(),
                None => false,
            };
            if !blocked {
                targets.push(MoveNotation::from_target(&piece, target, board));
            }
        }
        i = i + 1;
    }
    assert(offs.take(n as int) =~= offs);
    targets
}

/// Appends the moves along the line from `piece` in direction `(df, dr)`.
fn ray_moves(board: &Board, piece: Piece, df: i8, dr: i8, targets: &mut Vec<MoveNotation>)
    requires
        board.wf(),
        unit_direction(df as int, dr as int),
        piece.pos_of().offset_fits(df as int, dr as int),
    ensures
        final(targets)@ == old(targets)@ + ray(board.pieces@, piece, df as int, dr as int, 1),
{
    let ghost s = board.pieces@;
    let ghost start = old(targets)@;
    let ghost p = piece.pos_of();
    let pos = piece.get_position();
    let mut step: i8 = 1;
    loop
        invariant_except_break
            board.wf(),
            s == board.pieces@,
            pos == p,
            p == piece.pos_of(),
            unit_direction(df as int, dr as int),
            p.offset_fits(df as int, dr as int),
            1 <= step <= 9,
            step == 1 || (p.relative(df as int, dr as int) is Some && p.relative(
                scaled(df as int, step - 1),
                scaled(dr as int, step - 1),
            ) is Some),
            start + ray(s, piece, df as int, dr as int, 1) == targets@ + ray(
                s,
                piece,
                df as int,
                dr as int,
                step as int,
            ),
        ensures
            targets@ == start + ray(s, piece, df as int, dr as int, 1),
        decreases ray_room(p, df as int, dr as int, step as int),
    {
        let off_f: i8 = if df > 0 {
            step
        } else if df < 0 {
            -step
        } else {
            0
        };
        let off_r: i8 = if dr > 0 {
            step
        } else if dr < 0 {
            -step
        } else {
            0
        };
        assert(off_f == scaled(df as int, step as int));
        assert(off_r == scaled(dr as int, step as int));
        match pos.get_relative_pos(off_f, off_r) {
            Some(target) => {
                match board.piece_at(target) {
                    Some(seen) => {
                        if seen.get_color() != piece.get_color() {
                            targets.push(MoveNotation::from_target(&piece, target, board));
                        }
                        assert(targets@ == start + ray(s, piece, df as int, dr as int, 1));
                        break ;
                    },
                    None => {
                        targets.push(MoveNotation::from_target(&piece, target, board));
                        assert(targets@ + ray(s, piece, df as int, dr as int, step + 1) =~= start
                            + ray(s, piece, df as int, dr as int, 1));
                        step = step + 1;
                    },
                }
            },
            None => {
                assert(targets@ =~= start + ray(s, piece, df as int, dr as int, 1));
                break ;
            },
        }
    }
}

/// The moves along each of the directions `dirs`, in order.
fn ray_moves_all(board: &Board, piece: Piece, dirs: &[(i8, i8)]) -> (r: Vec<MoveNotation>)
    requires
        board.wf(),
        offsets_fit(piece.pos_of(), widen(dirs@)),
        forall|i: int| 0 <= i < dirs@.len() ==> unit_direction(#[trigger] dirs@[i].0 as int, dirs@[i].1 as int),
    ensures
        r@ == rays(board.pieces@, piece, widen(dirs@)),
{
    let ghost s = board.pieces@;
    let ghost ds = widen(dirs@);
    let mut targets: Vec<MoveNotation> = Vec::new();
    let n = dirs.len();
    let mut i: usize = 0;
    assert(ds.take(0) =~= Seq::<(int, int)>::empty());
    while i < n
        invariant
            board.wf(),
            s == board.pieces@,
            ds == widen(dirs@),
            offsets_fit(piece.pos_of(), ds),
            forall|i: int| 0 <= i < dirs@.len() ==> unit_direction(#[trigger] dirs@[i].0 as int, dirs@[i].1 as int),
            n == dirs@.len(),
            i <= n,
            targets@ == rays(s, piece, ds.take(i as int)),
        decreases n - i,
    {
        let (df, dr) = dirs[i];
        proof {
            assert(ds.take(i + 1).drop_last() =~= ds.take(i as int));
            assert(ds[i as int] == (df as int, dr as int));
            assert(piece.pos_of().offset_fits(ds[i as int].0, ds[i as int].1));
            assert(unit_direction(dirs@[i as int].0 as int, dirs@[i as int].1 as int));
        }
        ray_moves(board, piece, df, dr, &mut targets);
        i = i + 1;
    }
    assert(ds.take(n as int) =~= ds);
    targets
}


impl Knight {
    /// The candidate moves of this knight: its eight jumps, onto the board and not onto a
    /// piece of its own color.
    pub fn get_soft_targets(&self, board: &Board) -> (r: Vec<MoveNotation>)
        requires
            board.wf(),
            moves_fit(Piece::Knight(*self)),
        ensures
            r@ == pseudo_moves(board.pieces@, Piece::Knight(*self)),
    {
        reveal(pseudo_moves);
        let knight_moves: [(i8, i8); 8] = [(2, 1), (1, 2), (-1, 2), (-2, 1), (-2, -1), (-1, -2), (1, -2), (2, -1)];
        assert(widen(knight_moves@) =~= knight_offsets());
        jump_moves(board, Piece::Knight(*self), knight_moves.as_slice())
    }
}

impl King {
    /// The candidate moves of this king: one square in each of the eight directions, onto
    /// the board and not onto a piece of its own color.
    pub fn get_soft_targets(&self, board: &Board) -> (r: Vec<MoveNotation>)
        requires
            board.wf(),
            moves_fit(Piece::King(*self)),
        ensures
            r@ == pseudo_moves(board.pieces@, Piece::King(*self)),
    {
        reveal(pseudo_moves);
        let king_moves: [(i8, i8); 8] = [(1, 0), (1, 1), (0, 1), (-1, 1), (-1, 0), (-1, -1), (0, -1), (1, -1)];
        assert(widen(king_moves@) =~= king_offsets());
        jump_moves(board, Piece::King(*self), king_moves.as_slice())
    }
}

impl Rook {
    /// The candidate moves of this rook: along files and ranks up to the first piece,
    /// which it may take when it is of the other color.
    pub fn get_soft_targets(&self, board: &Board) -> (r: Vec<MoveNotation>)
        requires
            board.wf(),
            moves_fit(Piece::Rook(*self)),
        ensures
            r@ == pseudo_moves(board.pieces@, Piece::Rook(*self)),
    {
        reveal(pseudo_moves);
        let directions: [(i8, i8); 4] = [(1, 0), (-1, 0), (0, 1), (0, -1)];
        assert(widen(directions@) =~= rook_directions());
        ray_moves_all(board, Piece::Rook(*self), directions.as_slice())
    }

    /// The candidate moves of a white rook that has not moved, standing on `position`.
    pub fn get_relative_targets(position: Position, board: &Board) -> (r: Vec<MoveNotation>)
        requires
            board.wf(),
            moves_fit(Piece::Rook(Rook { color: PieceColor::White, position, has_moved: false })),
        ensures
            r@ == pseudo_moves(
                board.pieces@,
                Piece::Rook(Rook { color: PieceColor::White, position, has_moved: false }),
            ),
    {
        reveal(pseudo_moves);
        let mut targets: Vec<MoveNotation> = Vec::new();
        let dummy_rook = Rook { color: PieceColor::White, position, has_moved: false };
        let mut found = dummy_rook.get_soft_targets(board);
        targets.append(&mut found);
        targets
    }
}

impl Bishop {
    /// The candidate moves of this bishop: along the diagonals up to the first piece,
    /// which it may take when it is of the other color.
    pub fn get_soft_targets(&self, board: &Board) -> (r: Vec<MoveNotation>)
        requires
            board.wf(),
            moves_fit(Piece::Bishop(*self)),
        ensures
            r@ == pseudo_moves(board.pieces@, Piece::Bishop(*self)),
    {
        reveal(pseudo_moves);
        let directions: [(i8, i8); 4] = [(1, 1), (1, -1), (-1, 1), (-1, -1)];
        assert(widen(directions@) =~= bishop_directions());
        ray_moves_all(board, Piece::Bishop(*self), directions.as_slice())
    }
}

impl Queen {
    /// The candidate moves of this queen: those of a rook on its square followed by
    /// those of a bishop on its square (labelled as rook and bishop moves).
    pub fn get_soft_targets(&self, board: &Board) -> (r: Vec<MoveNotation>)
        requires
            board.wf(),
            moves_fit(Piece::Queen(*self)),
        ensures
            r@ == pseudo_moves(board.pieces@, Piece::Queen(*self)),
    {
        reveal(pseudo_moves);
        let ghost q = Piece::Queen(*self);
        proof {
            assert forall|i: int| 0 <= i < rook_directions().len() implies
                self.position.offset_fits(#[trigger] rook_directions()[i].0, rook_directions()[i].1) by {
                assert(probed_offsets(q)[i] == rook_directions()[i]);
            }
            assert forall|i: int| 0 <= i < bishop_directions().len() implies
                self.position.offset_fits(#[trigger] bishop_directions()[i].0, bishop_directions()[i].1) by {
                assert(probed_offsets(q)[i + 4] == bishop_directions()[i]);
            }
        }
        let mut rook_targets = Rook { color: self.color, position: self.position, has_moved: false }
            .get_soft_targets(board);
        let mut bishop_targets = Bishop { color: self.color, position: self.position }
            .get_soft_targets(board);
        rook_targets.append(&mut bishop_targets);
        rook_targets
    }
}

impl Pawn {
    /// The candidate moves of this pawn: one square ahead onto an empty square; two
    /// squares ahead from its start rank when both squares are empty; and a diagonal step
    /// ahead to either side onto a piece of the other color.
    pub fn get_soft_targets(&self, board: &Board) -> (r: Vec<MoveNotation>)
        requires
            board.wf(),
            moves_fit(Piece::Pawn(*self)),
        ensures
            r@ == pseudo_moves(board.pieces@, Piece::Pawn(*self)),
    {
        reveal(pseudo_moves);
        let ghost s = board.pieces@;
        let me = Piece::Pawn(Pawn { color: self.color, position: self.position, has_moved: self.has_moved });
        let ghost offs = probed_offsets(me);
        let mut targets: Vec<MoveNotation> = Vec::new();
        let direction: i8 = match self.color {
            PieceColor::White => 1,
            PieceColor::Black => -1,
        };
        proof {
            assert(offs[0] == (0int, direction as int));
            assert(offs[1] == (-1int, direction as int));
            assert(offs[2] == (1int, direction as int));
            assert(self.position.offset_fits(offs[0].0, offs[0].1));
            assert(self.position.offset_fits(offs[1].0, offs[1].1));
            assert(self.position.offset_fits(offs[2].0, offs[2].1));
        }
        if let Some(in_front) = self.position.get_relative_pos(0, direction) {
            proof {
                lemma_relative_compose(self.position, 0, direction as int, 0, direction as int);
                lemma_on_board_fits(in_front, 0, direction as int);
            }
            if board.piece_at(in_front).is_none() {
                targets.push(MoveNotation::from_target(&me, in_front, board));
            }
            let starts = match self.color {
                PieceColor::White => self.position.rank == 2,
                PieceColor::Black => self.position.rank == 7,
            };
            if starts {
                if let Some(double_forward) = in_front.get_relative_pos(0, direction) {
                    if board.piece_at(double_forward).is_none() && board.piece_at(in_front).is_none() {
                        targets.push(MoveNotation::from_target(&me, double_forward, board));
                    }
                }
            }
        }
        if let Some(attk_left) = self.position.get_relative_pos(-1, direction) {
            if let Some(seen) = board.piece_at(attk_left) {
                if seen.get_color() != self.color {
                    targets.push(MoveNotation::from_target(&me, attk_left, board));
                }
            }
        }
        if let Some(attk_right) = self.position.get_relative_pos(1, direction) {
            if let Some(seen) = board.piece_at(attk_right) {
                if seen.get_color() != self.color {
                    targets.push(MoveNotation::from_target(&me, attk_right, board));
                }
            }
        }
        assert(targets@ =~= pseudo_moves(s, me));
        targets
    }
}

impl Piece {
    /// The candidate moves of this piece, ignoring whether they leave its own king in check.
    pub fn pseudo_targets(&self, board: &Board) -> (r: Vec<MoveNotation>)
        requires
            board.wf(),
            moves_fit(*self),
        ensures
            r@ == pseudo_moves(board.pieces@, *self),
    {
        reveal(pseudo_moves);
        match self {
            Piece::Pawn(p) => p.get_soft_targets(board),
            Piece::Knight(n) => n.get_soft_targets(board),
            Piece::Bishop(b) => b.get_soft_targets(board),
            Piece::Rook(r) => r.get_soft_targets(board),
            Piece::Queen(q) => q.get_soft_targets(board),
            Piece::King(k) => k.get_soft_targets(board),
        }
    }
}

} // verus!
