//! Check, legal moves and checkmate.
use vstd::prelude::*;

use crate::board::{turn_color, Board, GameTurn};
use crate::notation::MoveNotation;
use crate::piece::{opponent, Piece, PieceColor, PieceType};
use crate::position::Position;
use crate::rules::{
    after_move, attacks, check_defined, has_king, in_check, is_king_of, king_index,
    legal_defined, legal_moves, legal_moves_defined, legal_moves_of, move_defined, moves_fit,
    pseudo_moves
};

verus! {

impl Board {
    /// The candidate moves of `piece` on this board.
    fn pseudo_targets_for(&self, piece: &Piece) -> (r: Vec<MoveNotation>)
        requires
            self.wf(),
            moves_fit(*piece),
        ensures
            r@ == pseudo_moves(self.pieces@, *piece),
    {
        piece.pseudo_targets(self)
    }

    /// The square of the first king of color `color`.
    fn king_position(&self, color: PieceColor) -> (r: Position)
        requires
            has_king(self.pieces@, color),
        ensures
            r == self.pieces@[king_index(self.pieces@, color)].pos_of(),
    {
        let ghost s = self.pieces@;
        let n = self.pieces.len();
        let mut i: usize = 0;
        while i < n
            invariant
                s == self.pieces@,
                has_king(s, color),
                n == s.len(),
                i <= n,
                forall|j: int| 0 <= j < i ==> !is_king_of(#[trigger] s[j], color),
            decreases n - i,
        {
            let p = self.pieces[i];
            if p.get_color() == color && p.get_type() == PieceType::King {
                proof {
                    assert(is_king_of(s[i as int], color));
                    let k = king_index(s, color);
                    if k < i {
                        assert(!is_king_of(s[k], color));
                    }
                    if k > i {
                        assert(!is_king_of(s[i as int], color));
                    }
                }
                return p.get_position();
            }
            i = i + 1;
        }
        proof {
            let w = choose|w: int| 0 <= w < s.len() && is_king_of(#[trigger] s[w], color);
            assert(!is_king_of(s[w], color));
        }
        self.pieces[0].get_position()
    }

    /// Whether some candidate move of `piece` ends on `target`.
    fn piece_attacks(&self, piece: &Piece, target: Position) -> (r: bool)
        requires
            self.wf(),
            moves_fit(*piece),
        ensures
            r == attacks(self.pieces@, *piece, target),
    {
        let targets = self.pseudo_targets_for(piece);
        let m = targets.len();
        let mut k: usize = 0;
        while k < m
            invariant
                targets@ == pseudo_moves(self.pieces@, *piece),
                m == targets.len(),
                k <= m,
                forall|j: int| 0 <= j < k ==> (#[trigger] targets@[j]).moving_to_position != target,
            decreases m - k,
        {
            if targets[k].targets_square(&target) {
                return true;
            }
            k = k + 1;
        }
        false
    }

    /// Returns true if the king of color `color` is in check on this board.
    pub(crate) fn is_in_check(&self, color: PieceColor) -> (r: bool)
        requires
            self.wf(),
            check_defined(self.pieces@, color),
        ensures
            r == in_check(self.pieces@, color),
    {
        reveal(in_check);
        let ghost s = self.pieces@;
        let king_position = self.king_position(color);
        let n = self.pieces.len();
        let mut i: usize = 0;
        while i < n
            invariant
                self.wf(),
                s == self.pieces@,
                check_defined(s, color),
                king_position == s[king_index(s, color)].pos_of(),
                n == s.len(),
                i <= n,
                forall|j: int|
                    0 <= j < i && (#[trigger] s[j]).color_of() != color ==> !attacks(
                        s,
                        s[j],
                        king_position,
                    ),
            decreases n - i,
        {
            let piece = self.pieces[i];
            if piece.get_color() != color {
                proof {
                    assert(s[i as int].color_of() == opponent(color));
                }
                if self.piece_attacks(&piece, king_position) {
                    proof {
                        reveal(in_check);
                        assert(s[i as int].color_of() != color && attacks(s, s[i as int], king_position));
                    }
                    return true;
                }
            }
            i = i + 1;
        }
        false
    }

    /// Whether making the move would leave the king of `piece_color` in check.
    fn move_leaves_own_king_in_check(&self, piece_color: PieceColor, info: &MoveNotation) -> (r: bool)
        requires
            self.wf(),
            move_defined(self.pieces@, *info),
            check_defined(after_move(self.pieces@, *info), piece_color),
        ensures
            r == in_check(after_move(self.pieces@, *info), piece_color),
    {
        let simulated_board = self.simulate_move(info);
        simulated_board.is_in_check(piece_color)
    }

    /// Whether making the move would put the king of the other color in check.
    fn move_puts_enemy_in_check(&self, piece_color: PieceColor, info: &MoveNotation) -> (r: bool)
        requires
            self.wf(),
            move_defined(self.pieces@, *info),
            check_defined(after_move(self.pieces@, *info), opponent(piece_color)),
        ensures
            r == in_check(after_move(self.pieces@, *info), opponent(piece_color)),
    {
        let simulated_board = self.simulate_move(info);
        let enemy_color = match piece_color {
            PieceColor::White => PieceColor::Black,
            PieceColor::Black => PieceColor::White,
        };
        simulated_board.is_in_check(enemy_color)
    }

    /// The legal moves of `piece`: its candidate moves that do not leave its own king in
    /// check, each marked as a check when it leaves the other king in check.
    pub fn legal_targets_for(&self, piece: &Piece) -> (r: Vec<MoveNotation>)
        requires
            self.wf(),
            legal_moves_defined(self.pieces@, *piece),
        ensures
            r@ == legal_moves_of(self.pieces@, *piece),
    {
        reveal(legal_moves_of);
        reveal(legal_moves_defined);
        let ghost s = self.pieces@;
        let color = piece.get_color();
        let items = self.pseudo_targets_for(piece);
        let ghost ms = items@;
        let mut cleaned_items: Vec<MoveNotation> = Vec::new();
        let n = items.len();
        let mut i: usize = 0;
        assert(ms.take(0) =~= Seq::<MoveNotation>::empty());
        while i < n
            invariant
                self.wf(),
                s == self.pieces@,
                ms == items@,
                ms == pseudo_moves(s, *piece),
                color == piece.color_of(),
                legal_defined(s, color, ms),
                n == ms.len(),
                i <= n,
                cleaned_items@ == legal_moves(s, color, ms.take(i as int)),
            decreases n - i,
        {
            let mut target = items[i];
            proof {
                assert(ms.take(i + 1).drop_last() =~= ms.take(i as int));
                assert(ms.take(i + 1).last() == ms[i as int]);
                let after = after_move(s, ms[i as int]);
                assert(move_defined(s, ms[i as int]));
                assert(check_defined(after, color));
            }
            if self.move_leaves_own_king_in_check(color, &target) {
                target.is_self_check = true;
            } else {
                target.is_check = self.move_puts_enemy_in_check(color, &target);
                cleaned_items.push(target);
            }
            i = i + 1;
        }
        assert(ms.take(n as int) =~= ms);
        cleaned_items
    }

    /// Whether the side to move is checkmated: `Some` of its color when its king is in
    /// check and none of its pieces has a legal move, `None` otherwise.
    pub fn is_check_mate(&self) -> (r: Option<PieceColor>)
        requires
            self.wf(),
            checkmate_defined(self.pieces@, turn_color(self.turn)),
        ensures
            r == if checkmated(self.pieces@, turn_color(self.turn)) {
                Some(turn_color(self.turn))
            } else {
                None
            },
    {
        let ghost s = self.pieces@;
        let current_color = match self.turn {
            GameTurn::WhiteTurn => PieceColor::White,
            GameTurn::BlackTurn => PieceColor::Black,
        };
        let current_color_in_check = self.is_in_check(current_color);
        if !current_color_in_check {
            return None;
        }
        let n = self.pieces.len();
        let mut i: usize = 0;
        while i < n
            invariant
                self.wf(),
                s == self.pieces@,
                current_color == turn_color(self.turn),
                in_check(s, current_color),
                forall|j: int|
                    0 <= j < s.len() && (#[trigger] s[j]).color_of() == current_color
                        ==> legal_moves_defined(s, s[j]),
                n == s.len(),
                i <= n,
                forall|j: int|
                    0 <= j < i && (#[trigger] s[j]).color_of() == current_color
                        ==> legal_moves_of(s, s[j]).len() == 0,
            decreases n - i,
        {
            let piece = self.pieces[i];
            if piece.get_color() == current_color {
                let targets = self.legal_targets_for(&piece);
                if targets.len() != 0 {
                    return None;
                }
            }
            i = i + 1;
        }
        Some(current_color)
    }
}

/// Whether the color `c` has no legal move: no piece of that color has one.
pub open spec fn no_legal_moves(s: Seq<Piece>, c: PieceColor) -> bool {
    forall|j: int| 0 <= j < s.len() && (#[trigger] s[j]).color_of() == c ==> legal_moves_of(s, s[j]).len() == 0
}

/// The king of color `c` is in check and no piece of that color has a legal move.
pub open spec fn checkmated(s: Seq<Piece>, c: PieceColor) -> bool {
    in_check(s, c) && no_legal_moves(s, c)
}

/// Whether the checkmate test for color `c` can be computed: whether `c` is in check
/// can be computed, and when it is, the legal moves of every piece of that color can be.
pub open spec fn checkmate_defined(s: Seq<Piece>, c: PieceColor) -> bool {
    &&& check_defined(s, c)
    &&& in_check(s, c) ==> forall|j: int|
        0 <= j < s.len() && (#[trigger] s[j]).color_of() == c ==> legal_moves_defined(s, s[j])
}

/// The first move of the list that ends on `pos`, if any.
pub open spec fn first_move_to(ts: Seq<MoveNotation>, pos: Position) -> Option<MoveNotation> {
    if exists|i: int| 0 <= i < ts.len() && (#[trigger] ts[i]).moving_to_position == pos {
        Some(
            ts[choose|i: int|
                0 <= i < ts.len() && (#[trigger] ts[i]).moving_to_position == pos && forall|j: int|
                    0 <= j < i ==> (#[trigger] ts[j]).moving_to_position != pos],
        )
    } else {
        None
    }
}

impl Board {
    /// Selects `piece`: remembers its square and its legal moves.
    pub fn select_piece(&mut self, piece: &Piece)
        requires
            old(self).wf(),
            legal_moves_defined(old(self).pieces@, *piece),
        ensures
            final(self).wf(),
            final(self).selected_targets@ == legal_moves_of(old(self).pieces@, *piece),
            final(self).selected_piece_location == Some(piece.pos_of()),
            final(self).pieces == old(self).pieces,
            final(self).piece_graveyard == old(self).piece_graveyard,
            final(self).turn == old(self).turn,
    {
        self.selected_targets = self.legal_targets_for(piece);
        self.selected_piece_location = Some(piece.get_position());
    }

    /// The square of the selected piece, if any.
    pub fn selected_piece_location(&self) -> (r: Option<Position>)
        ensures
            r == self.selected_piece_location,
    {
        self.selected_piece_location
    }

    /// The legal moves of the selected piece.
    pub fn selected_legal_targets(&self) -> (r: Vec<MoveNotation>)
        ensures
            r@ == self.selected_targets@,
    {
        crate::board::copy_vec(&self.selected_targets)
    }

    /// The first legal move of the selected piece that ends on `position`, if any.
    pub fn selected_move_to(&self, position: Position) -> (r: Option<MoveNotation>)
        ensures
            r == first_move_to(self.selected_targets@, position),
    {
        let targets = self.selected_legal_targets();
        let ghost ts = targets@;
        let n = targets.len();
        let mut i: usize = 0;
        while i < n
            invariant
                ts == targets@,
                ts == self.selected_targets@,
                n == ts.len(),
                i <= n,
                forall|j: int| 0 <= j < i ==> (#[trigger] ts[j]).moving_to_position != position,
            decreases n - i,
        {
            if targets[i].get_target_pos() == position {
                proof {
                    let k = choose|k: int|
                        0 <= k < ts.len() && (#[trigger] ts[k]).moving_to_position == position && forall|j: int|
                            0 <= j < k ==> (#[trigger] ts[j]).moving_to_position != position;
                    assert(0 <= i < ts.len() && ts[i as int].moving_to_position == position && forall|j: int|
                            0 <= j < i ==> (#[trigger] ts[j]).moving_to_position != position);
                    if k < i {
                        assert(ts[k].moving_to_position != position);
                    }
                    if k > i {
                        assert(ts[i as int].moving_to_position != position);
                    }
                }
                return Some(targets[i]);
            }
            i = i + 1;
        }
        None
    }
}

} // verus!
