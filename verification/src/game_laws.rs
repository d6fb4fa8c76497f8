//! What a click does and how the board is colored, stated over the board's contents.
use vstd::prelude::*;

use crate::board::{Board, GameTurn};
use crate::check::first_move_to;
use crate::game::{click_move, own_piece_at, square_rgb, tint_targets};
use crate::notation::MoveNotation;
use crate::piece::PieceColor;
use crate::position::{square, Position};
use crate::rules::occupant;

verus! {

/// The color whose turn it is.
pub open spec fn mover(t: GameTurn) -> PieceColor {
    if t == GameTurn::WhiteTurn {
        PieceColor::White
    } else {
        PieceColor::Black
    }
}

proof fn lemma_first_index_exists(ts: Seq<MoveNotation>, pos: Position, k: int)
    requires
        0 <= k < ts.len(),
        ts[k].moving_to_position == pos,
    ensures
        exists|i: int|
            0 <= i < ts.len() && (#[trigger] ts[i]).moving_to_position == pos && forall|j: int|
                0 <= j < i ==> (#[trigger] ts[j]).moving_to_position != pos,
    decreases k,
{
    if exists|j: int| 0 <= j < k && (#[trigger] ts[j]).moving_to_position == pos {
        let j = choose|j: int| 0 <= j < k && (#[trigger] ts[j]).moving_to_position == pos;
        lemma_first_index_exists(ts, pos, j);
    } else {
        assert(forall|j: int| 0 <= j < k ==> (#[trigger] ts[j]).moving_to_position != pos);
    }
}

/// The move of a list found for a square is the first move of the list ending on that
/// square; one is found whenever some move of the list ends there.
pub proof fn lemma_first_move_to(ts: Seq<MoveNotation>, pos: Position)
    ensures
        first_move_to(ts, pos) matches Some(m) ==> exists|k: int|
            0 <= k < ts.len() && ts[k] == m && m.moving_to_position == pos && forall|j: int|
                0 <= j < k ==> (#[trigger] ts[j]).moving_to_position != pos,
        (exists|k: int| 0 <= k < ts.len() && (#[trigger] ts[k]).moving_to_position == pos)
            ==> first_move_to(ts, pos) is Some,
{
    if exists|k: int| 0 <= k < ts.len() && (#[trigger] ts[k]).moving_to_position == pos {
        let k = choose|k: int| 0 <= k < ts.len() && (#[trigger] ts[k]).moving_to_position == pos;
        lemma_first_index_exists(ts, pos, k);
    }
}

/// A click on a piece of the side to move selects it and makes no move. A click on any
/// other square (empty, or holding a piece of the other side) with a piece selected makes
/// the first legal move of the selected piece that ends on that square, if there is one;
/// so clicking an enemy piece that the selected piece can take makes the capture.
pub proof fn lemma_click_dispatch(b: Board, pos: Position)
    ensures
        (occupant(b.pieces@, pos) matches Some(q) && q.color_of() == mover(b.turn)) ==> own_piece_at(
            b,
            pos,
        ) == occupant(b.pieces@, pos) && click_move(b, pos) is None,
        !(occupant(b.pieces@, pos) matches Some(q) && q.color_of() == mover(b.turn)) ==> own_piece_at(
            b,
            pos,
        ) is None && click_move(b, pos) == if b.selected_piece_location is Some {
            first_move_to(b.selected_targets@, pos)
        } else {
            None
        },
{
}

/// The colors of the board without a selection form a checkerboard: the corner a1 is
/// black, every square is black or grey-blue, and squares next to each other along a file
/// or a rank differ.
pub proof fn lemma_checkerboard(b: Board, col: int, row: int)
    requires
        b.selected_piece_location is None,
        b.selected_targets@.len() == 0,
        0 <= col < 8,
        0 <= row < 8,
    ensures
        square_rgb(b, 0, 0) == (0u8, 0u8, 0u8),
        square_rgb(b, col, row) == (0u8, 0u8, 0u8) || square_rgb(b, col, row) == (155u8, 173u8, 183u8),
        row + 1 < 8 ==> square_rgb(b, col, row) != square_rgb(b, col, row + 1),
        col + 1 < 8 ==> square_rgb(b, col, row) != square_rgb(b, col + 1, row),
{
    assert(b.selected_targets@ == Seq::<MoveNotation>::empty());
}

/// The selected piece's square is highlighted: with no legal moves listed, it is drawn in
/// a color other than the one it has without a selection, and every other square keeps the
/// color it has without a selection.
pub proof fn lemma_selection_highlight(b: Board, col: int, row: int)
    requires
        b.selected_targets@.len() == 0,
        0 <= col < 8,
        0 <= row < 8,
    ensures
        ({
            let plain = Board { selected_piece_location: None, ..b };
            &&& b.selected_piece_location == Some(square(col, row)) ==> square_rgb(b, col, row)
                != square_rgb(plain, col, row)
            &&& b.selected_piece_location != Some(square(col, row)) ==> square_rgb(b, col, row)
                == square_rgb(plain, col, row)
        }),
{
    assert(b.selected_targets@ == Seq::<MoveNotation>::empty());
}

} // verus!
