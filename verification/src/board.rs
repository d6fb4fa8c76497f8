use vstd::prelude::*;

use crate::notation::MoveNotation;
use crate::piece::{Piece, PieceColor};
use crate::position::Position;
use crate::rules::{
    after_move, distinct_squares, index_at, lemma_occupant_of_member, lemma_placed,
    lemma_without_square, move_defined, occupant, occupied, placed, without_square
};

verus! {

/// Whose turn it is.
#[derive(Debug, Clone, Copy, PartialEq, Eq, Hash, Structural)]
pub enum GameTurn {
    WhiteTurn,
    BlackTurn,
}

impl Default for GameTurn {
    fn default() -> (t: Self)
        ensures
            t == GameTurn::WhiteTurn,
    {
        GameTurn::WhiteTurn
    }
}

/// The color that moves in this turn.
pub open spec fn turn_color(t: GameTurn) -> PieceColor {
    match t {
        GameTurn::WhiteTurn => PieceColor::White,
        GameTurn::BlackTurn => PieceColor::Black,
    }
}

/// The turn after this one.
pub open spec fn next_turn(t: GameTurn) -> GameTurn {
    match t {
        GameTurn::WhiteTurn => GameTurn::BlackTurn,
        GameTurn::BlackTurn => GameTurn::WhiteTurn,
    }
}

/// The state of a game: the pieces on the board (at most one per square), the
/// captured pieces, whose turn it is, and the selected piece with its legal moves.
pub struct Board {
    pub pieces: Vec<Piece>,
    pub piece_graveyard: Vec<Piece>,
    pub turn: GameTurn,
    pub selected_piece_location: Option<Position>,
    pub selected_targets: Vec<MoveNotation>,
}

impl Board {
    /// The board is well formed: no two pieces share a square.
    pub open spec fn wf(&self) -> bool {
        distinct_squares(self.pieces@)
    }

    /// The piece on `pos`, if any.
    pub fn piece_at(&self, pos: Position) -> (r: Option<Piece>)
        requires
            self.wf(),
        ensures
            r == occupant(self.pieces@, pos),
    {
        let n = self.pieces.len();
        let mut i: usize = 0;
        while i < n
            invariant
                self.wf(),
                n == self.pieces.len(),
                i <= n,
                forall|j: int| 0 <= j < i ==> (#[trigger] self.pieces@[j]).pos_of() != pos,
            decreases n - i,
        {
            if self.pieces[i].get_position() == pos {
                proof {
                    let k = index_at(self.pieces@, pos);
                    assert(occupied(self.pieces@, pos));
                    assert(self.pieces@[k].pos_of() == self.pieces@[i as int].pos_of());

                }
                return Some(self.pieces[i]);
            }
            i = i + 1;
        }
        None
    }
}

/// A copy of a vector of plain values.
pub fn copy_vec<T: Copy>(v: &Vec<T>) -> (r: Vec<T>)
    ensures
        r@ == v@,
{
    let mut r: Vec<T> = Vec::new();
    let n = v.len();
    let mut i: usize = 0;
    while i < n
        invariant
            n == v.len(),
            i <= n,
            r@ == v@.take(i as int),
        decreases n - i,
    {
        r.push(v[i]);
        assert(v@.take(i + 1) =~= v@.take(i as int).push(v@[i as int]));
        i = i + 1;
    }
    assert(v@.take(n as int) =~= v@);
    r
}

impl Board {
    /// Takes the piece on `pos` off the board.
    pub(crate) fn take_piece_at(&mut self, pos: Position) -> (r: Option<Piece>)
        requires
            old(self).wf(),
        ensures
            final(self).wf(),
            r == occupant(old(self).pieces@, pos),
            final(self).pieces@ == without_square(old(self).pieces@, pos),
            final(self).piece_graveyard == old(self).piece_graveyard,
            final(self).turn == old(self).turn,
            final(self).selected_piece_location == old(self).selected_piece_location,
            final(self).selected_targets == old(self).selected_targets,
    {
        proof {
            lemma_without_square(self.pieces@, pos);
        }
        let n = self.pieces.len();
        let mut i: usize = 0;
        while i < n
            invariant
                self.wf(),
                *self == *old(self),
                n == self.pieces.len(),
                i <= n,
                forall|j: int| 0 <= j < i ==> (#[trigger] self.pieces@[j]).pos_of() != pos,
            decreases n - i,
        {
            if self.pieces[i].get_position() == pos {
                proof {
                    lemma_occupant_of_member(self.pieces@, i as int);
                }
                let p = self.pieces.remove(i);
                return Some(p);
            }
            i = i + 1;
        }
        None
    }

    /// Puts `p` on its square, replacing whatever stood there.
    pub(crate) fn put_piece(&mut self, p: Piece)
        requires
            old(self).wf(),
        ensures
            final(self).wf(),
            final(self).pieces@ == placed(old(self).pieces@, p),
            final(self).piece_graveyard == old(self).piece_graveyard,
            final(self).turn == old(self).turn,
            final(self).selected_piece_location == old(self).selected_piece_location,
            final(self).selected_targets == old(self).selected_targets,
    {
        proof {
            lemma_placed(self.pieces@, p);
        }
        self.take_piece_at(p.get_position());
        self.pieces.push(p);
    }

    /// Forgets the selected piece and its moves.
    pub fn clear_selection(&mut self)
        ensures
            final(self).selected_piece_location is None,
            final(self).selected_targets@ == Seq::<MoveNotation>::empty(),
            final(self).pieces == old(self).pieces,
            final(self).piece_graveyard == old(self).piece_graveyard,
            final(self).turn == old(self).turn,
    {
        self.selected_piece_location = None;
        self.selected_targets.clear();
    }

    /// Carries out a move: the piece on the source square goes to the target square; a
    /// captured piece goes to the graveyard; the selection is cleared and the turn passes.
    fn apply_move(&mut self, info: &MoveNotation)
        requires
            old(self).wf(),
            move_defined(old(self).pieces@, *info),
        ensures
            final(self).wf(),
            final(self).pieces@ == after_move(old(self).pieces@, *info),
            final(self).piece_graveyard@ == if info.is_capture {
                old(self).piece_graveyard@.push(occupant(old(self).pieces@, info.moving_to_position).unwrap())
            } else {
                old(self).piece_graveyard@
            },
            final(self).turn == next_turn(old(self).turn),
            final(self).selected_piece_location is None,
            final(self).selected_targets@ == Seq::<MoveNotation>::empty(),
    {
        reveal(after_move);
        let ghost s = self.pieces@;
        let from = info.moving_from_position;
        let to = info.moving_to_position;
        let mut moved_piece = match self.piece_at(from) {
            Some(p) => p,
            None => {
                proof {
                    assert(false);
                }
                return ;
            },
        };
        moved_piece.set_position(to);
        self.take_piece_at(from);
        proof {
            lemma_without_square(s, from);
        }
        if !info.is_capture {
            self.put_piece(moved_piece);
            self.clear_selection();
        } else {
            let captured_piece = match self.take_piece_at(to) {
                Some(p) => p,
                None => {
                    proof {
                        assert(occupant(without_square(s, from), to) == occupant(s, to));
                        assert(false);
                    }
                    return ;
                },
            };
            proof {
                assert(occupant(without_square(s, from), to) == occupant(s, to));
                lemma_without_square(without_square(s, from), to);
                lemma_placed(without_square(s, from), moved_piece);
                assert(placed(without_square(s, from), moved_piece) =~= placed(
                    without_square(without_square(s, from), to),
                    moved_piece,
                )) by {
                    assert(moved_piece.pos_of() == to);
                    assert(without_square(without_square(without_square(s, from), to), to)
                        == without_square(without_square(s, from), to));
                }
            }
            self.piece_graveyard.push(captured_piece);
            self.put_piece(moved_piece);
            self.clear_selection();
        }
        self.turn = match self.turn {
            GameTurn::WhiteTurn => GameTurn::BlackTurn,
            GameTurn::BlackTurn => GameTurn::WhiteTurn,
        };
    }

    /// Makes a move on this board: updates the pieces, the graveyard and the turn, and
    /// clears the selection.
    pub fn make_move(&mut self, info: &MoveNotation)
        requires
            old(self).wf(),
            move_defined(old(self).pieces@, *info),
        ensures
            final(self).wf(),
            final(self).pieces@ == after_move(old(self).pieces@, *info),
            final(self).piece_graveyard@ == if info.is_capture {
                old(self).piece_graveyard@.push(occupant(old(self).pieces@, info.moving_to_position).unwrap())
            } else {
                old(self).piece_graveyard@
            },
            final(self).turn == next_turn(old(self).turn),
            final(self).selected_piece_location is None,
            final(self).selected_targets@ == Seq::<MoveNotation>::empty(),
    {
        self.apply_move(info);
    }

    /// A copy of this board.
    pub fn copy(&self) -> (r: Board)
        ensures
            r.pieces@ == self.pieces@,
            r.piece_graveyard@ == self.piece_graveyard@,
            r.turn == self.turn,
            r.selected_piece_location == self.selected_piece_location,
            r.selected_targets@ == self.selected_targets@,
    {
        Board {
            pieces: copy_vec(&self.pieces),
            piece_graveyard: copy_vec(&self.piece_graveyard),
            turn: self.turn,
            selected_piece_location: self.selected_piece_location,
            selected_targets: copy_vec(&self.selected_targets),
        }
    }

    /// The board that a move would give, leaving this board as it is.
    pub fn simulate_move(&self, info: &MoveNotation) -> (r: Self)
        requires
            self.wf(),
            move_defined(self.pieces@, *info),
        ensures
            r.wf(),
            r.pieces@ == after_move(self.pieces@, *info),
            r.piece_graveyard@ == if info.is_capture {
                self.piece_graveyard@.push(occupant(self.pieces@, info.moving_to_position).unwrap())
            } else {
                self.piece_graveyard@
            },
            r.turn == next_turn(self.turn),
            r.selected_piece_location is None,
            r.selected_targets@ == Seq::<MoveNotation>::empty(),
    {
        let mut sim_board = self.copy();
        sim_board.apply_move(info);
        sim_board
    }
}

} // verus!
