//! What a click on a square of the board does.
use vstd::prelude::*;

use crate::board::{next_turn, turn_color, Board, GameTurn};
use crate::check::{checkmate_defined, checkmated, first_move_to};
use crate::notation::MoveNotation;
use crate::piece::{Piece, PieceColor};
use crate::position::{square, Position};
use crate::rules::{
    after_move, legal_moves_defined, legal_moves_of, move_defined, occupant,
};

verus! {

/// What a click did.
#[derive(Debug, Clone, Copy, PartialEq, Eq, Structural)]
pub enum ClickOutcome {
    /// A piece of the side to move was selected.
    Selected,
    /// The selected piece made this move; `checkmated` is the result of the checkmate
    /// test on the new position (the color of the side to move when it is checkmated).
    Moved { notation: MoveNotation, checkmated: Option<PieceColor> },
    /// The square is no legal target of the selected piece; the selection was dropped.
    Deselected,
    /// Nothing was selected and no piece of the side to move was clicked.
    Ignored,
}

/// The piece of the side to move on `pos`, if any.
pub open spec fn own_piece_at(b: Board, pos: Position) -> Option<Piece> {
    match occupant(b.pieces@, pos) {
        Some(p) => if p.color_of() == turn_color(b.turn) { Some(p) } else { None },
        None => None,
    }
}

/// The move that a click on `pos` makes: the first legal move of the selected piece to
/// that square, when a piece is selected and no piece of the side to move is clicked.
pub open spec fn click_move(b: Board, pos: Position) -> Option<MoveNotation> {
    if own_piece_at(b, pos) is None && b.selected_piece_location is Some {
        first_move_to(b.selected_targets@, pos)
    } else {
        None
    }
}

/// Whether a click on `pos` can be handled: the legal moves of a clicked piece of the
/// side to move can be computed; a move that the click makes can be carried out and the
/// checkmate test after it can be computed.
pub open spec fn click_defined(b: Board, pos: Position) -> bool {
    match own_piece_at(b, pos) {
        Some(p) => legal_moves_defined(b.pieces@, p),
        None => match click_move(b, pos) {
            Some(m) => move_defined(b.pieces@, m) && checkmate_defined(
                after_move(b.pieces@, m),
                turn_color(next_turn(b.turn)),
            ),
            None => true,
        },
    }
}

impl Board {
    /// Handles a click on the square `pos`. A piece of the side to move is selected. Else,
    /// with a piece selected, a legal move of it to `pos` is made (followed by the
    /// checkmate test), and without one the selection is dropped.
    pub fn click_on(&mut self, pos: Position) -> (r: ClickOutcome)
        requires
            old(self).wf(),
            click_defined(*old(self), pos),
        ensures
            final(self).wf(),
            own_piece_at(*old(self), pos) matches Some(p) ==> {
                &&& r == ClickOutcome::Selected
                &&& final(self).selected_targets@ == legal_moves_of(old(self).pieces@, p)
                &&& final(self).selected_piece_location == Some(pos)
                &&& final(self).pieces == old(self).pieces
                &&& final(self).piece_graveyard == old(self).piece_graveyard
                &&& final(self).turn == old(self).turn
            },
            click_move(*old(self), pos) matches Some(m) ==> {
                let after = after_move(old(self).pieces@, m);
                let next = next_turn(old(self).turn);
                &&& r == ClickOutcome::Moved {
                    notation: m,
                    checkmated: if checkmated(after, turn_color(next)) {
                        Some(turn_color(next))
                    } else {
                        None
                    },
                }
                &&& final(self).pieces@ == after
                &&& final(self).piece_graveyard@ == if m.is_capture {
                    old(self).piece_graveyard@.push(
                        occupant(old(self).pieces@, m.moving_to_position).unwrap(),
                    )
                } else {
                    old(self).piece_graveyard@
                }
                &&& final(self).turn == next
                &&& final(self).selected_piece_location is None
                &&& final(self).selected_targets@ == Seq::<MoveNotation>::empty()
            },
            own_piece_at(*old(self), pos) is None && click_move(*old(self), pos) is None ==> {
                &&& final(self).pieces == old(self).pieces
                &&& final(self).piece_graveyard == old(self).piece_graveyard
                &&& final(self).turn == old(self).turn
                &&& if old(self).selected_piece_location is Some {
                    &&& r == ClickOutcome::Deselected
                    &&& final(self).selected_piece_location is None
                    &&& final(self).selected_targets@ == Seq::<MoveNotation>::empty()
                } else {
                    &&& r == ClickOutcome::Ignored
                    &&& final(self).selected_piece_location == old(self).selected_piece_location
                    &&& final(self).selected_targets == old(self).selected_targets
                }
            },
    {
        if let Some(piece) = self.piece_at(pos) {
            let current = match self.turn {
                GameTurn::WhiteTurn => PieceColor::White,
                GameTurn::BlackTurn => PieceColor::Black,
            };
            if piece.get_color() == current {
                self.select_piece(&piece);
                return ClickOutcome::Selected;
            }
        }
        if self.selected_piece_location.is_some() {
            if let Some(item) = self.selected_move_to(pos) {
                self.make_move(&item);
                self.clear_selection();
                let winner = self.is_check_mate();
                return ClickOutcome::Moved { notation: item, checkmated: winner };
            } else {
                self.clear_selection();
                return ClickOutcome::Deselected;
            }
        }
        ClickOutcome::Ignored
    }
}

/// An RGB color.
pub type Rgb = (u8, u8, u8);

/// Mixes a color with a tint the way the board highlights squares: each channel becomes
/// the low byte of the half of the channel plus the tint's channel.
pub open spec fn blend(c: Rgb, tint: (int, int, int)) -> Rgb {
    (
        (((c.0 + tint.0) / 2) % 256) as u8,
        (((c.1 + tint.1) / 2) % 256) as u8,
        (((c.2 + tint.2) / 2) % 256) as u8,
    )
}

/// The tint of the square of the selected piece.
pub open spec fn selected_tint() -> (int, int, int) {
    (0x008800, 0x00FF00, 0x008800)
}

/// The tint of a square that a legal move of the selected piece ends on.
pub open spec fn target_tint() -> (int, int, int) {
    (0x00FF00, 0x00FF00, 0x000000)
}

/// The color with the target tint applied once for each move of the list that ends on `sq`.
pub open spec fn tint_targets(c: Rgb, ts: Seq<MoveNotation>, sq: Position) -> Rgb
    decreases ts.len(),
{
    if ts.len() == 0 {
        c
    } else {
        let prev = tint_targets(c, ts.drop_last(), sq);
        if ts.last().moving_to_position == sq {
            blend(prev, target_tint())
        } else {
            prev
        }
    }
}

/// The color of the square at file index `col` and rank index `row`: black when
/// `col + row` is even, grey-blue otherwise; tinted when the selected piece stands there;
/// and tinted again for every legal move of the selected piece that ends there.
pub open spec fn square_rgb(b: Board, col: int, row: int) -> Rgb {
    let sq = square(col, row);
    let base: Rgb = if (row + col) % 2 == 0 { (0, 0, 0) } else { (155, 173, 183) };
    let sel = if b.selected_piece_location == Some(sq) { blend(base, selected_tint()) } else { base };
    tint_targets(sel, b.selected_targets@, sq)
}

fn blend_exec(c: Rgb, t0: u16, t1: u16, t2: u16) -> (r: Rgb)
    requires
        t0 <= 0xFF00,
        t1 <= 0xFF00,
        t2 <= 0xFF00,
    ensures
        r == blend(c, (t0 as int, t1 as int, t2 as int)),
{
    let r = ((c.0 as u16 + t0) / 2 % 256) as u8;
    let g = ((c.1 as u16 + t1) / 2 % 256) as u8;
    let b = ((c.2 as u16 + t2) / 2 % 256) as u8;
    (r, g, b)
}

impl Board {
    /// The color in which the board shows the square at file index `col` and rank index `row`.
    pub fn square_color(&self, col: u8, row: u8) -> (r: Rgb)
        requires
            col < 8,
            row < 8,
        ensures
            r == square_rgb(*self, col as int, row as int),
    {
        let square_position = Position::from_coordinates(col, row);
        let is_light_square = (row + col) % 2 == 0;
        let mut square_color: Rgb = if is_light_square { (0, 0, 0) } else { (155, 173, 183) };
        if let Some(selected_position) = self.selected_piece_location {
            if selected_position == square_position {
                square_color = blend_exec(square_color, 0x008800, 0x00FF00, 0x008800);
            }
        }
        let ghost sel = square_color;
        let targets = self.selected_legal_targets();
        let ghost ts = targets@;
        let n = targets.len();
        let mut i: usize = 0;
        assert(ts.take(0) =~= Seq::<MoveNotation>::empty());
        while i < n
            invariant
                ts == targets@,
                n == ts.len(),
                i <= n,
                square_color == tint_targets(sel, ts.take(i as int), square_position),
            decreases n - i,
        {
            assert(ts.take(i + 1).drop_last() =~= ts.take(i as int));
            if targets[i].get_target_pos() == square_position {
                square_color = blend_exec(square_color, 0x00FF00, 0x00FF00, 0x000000);
            }
            i = i + 1;
        }
        assert(ts.take(n as int) =~= ts);
        square_color
    }
}

/// The screens of the application.
#[derive(Debug, Clone, Copy, PartialEq, Eq, Structural)]
pub enum AppState {
    MainMenu,
    Playing,
    Paused,
}

impl Default for AppState {
    fn default() -> (s: Self)
        ensures
            s == AppState::MainMenu,
    {
        AppState::MainMenu
    }
}

/// The buttons of the side panels.
#[derive(Debug, Clone, Copy, PartialEq, Eq, Structural)]
pub enum MenuButton {
    /// "New Game" in the main menu.
    NewGame,
    /// "Pause" during a game.
    Pause,
    /// "Main Menu" during a game.
    MainMenu,
}

/// The screen after a button is pressed; a button that the screen does not show changes
/// nothing.
pub open spec fn state_after(state: AppState, button: MenuButton) -> AppState {
    match (state, button) {
        (AppState::MainMenu, MenuButton::NewGame) => AppState::Playing,
        (AppState::Playing, MenuButton::Pause) => AppState::Paused,
        (AppState::Playing, MenuButton::MainMenu) => AppState::MainMenu,
        _ => state,
    }
}

impl AppState {
    /// The screen after `button` is pressed on this screen.
    pub fn on_button(self, button: MenuButton) -> (r: AppState)
        ensures
            r == state_after(self, button),
    {
        match (self, button) {
            (AppState::MainMenu, MenuButton::NewGame) => AppState::Playing,
            (AppState::Playing, MenuButton::Pause) => AppState::Paused,
            (AppState::Playing, MenuButton::MainMenu) => AppState::MainMenu,
            _ => self,
        }
    }
}

/// The heading that names the side to move.
pub open spec fn turn_heading(t: GameTurn) -> Seq<char> {
    match t {
        GameTurn::WhiteTurn => "White's Turn"@,
        GameTurn::BlackTurn => "Black's Turn"@,
    }
}

impl GameTurn {
    /// The heading that names the side to move: "White's Turn" or "Black's Turn".
    pub fn heading(&self) -> (s: String)
        ensures
            s@ == turn_heading(*self),
    {
        let mut s = String::new();
        match self {
            GameTurn::WhiteTurn => crate::text::push_chars(&mut s, "White's Turn"),
            GameTurn::BlackTurn => crate::text::push_chars(&mut s, "Black's Turn"),
        }
        s
    }
}

} // verus!
