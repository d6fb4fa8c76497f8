use chess::defined::{moves_fit_check, notation_is_valid};
use chess::{
    piece_filename, AppState, Board, ClickOutcome, GameTurn, King, Knight, MenuButton, MoveNotation,
    Pawn, Piece, PieceColor, PieceType, Position, Rook,
};

const STARTER: &str = "WRa1,WNb1,WBc1,WQd1,WKe1,WBf1,WNg1,WRh1,WPa2,WPb2,WPc2,WPd2,WPe2,WPf2,WPg2,WPh2,\
BRa8,BNb8,BBc8,BQd8,BKe8,BBf8,BNg8,BRh8,BPa7,BPb7,BPc7,BPd7,BPe7,BPf7,BPg7,BPh7";

fn pos(s: &str) -> Position {
    let c: Vec<char> = s.chars().collect();
    Position::new(c[0], c[1].to_digit(10).unwrap() as u8)
}

fn targets(moves: &[MoveNotation]) -> Vec<String> {
    let mut v: Vec<String> = moves.iter().map(|m| m.get_target_pos().to_string()).collect();
    v.sort();
    v
}

fn click(board: &mut Board, square: &str) -> ClickOutcome {
    let p = pos(square);
    assert!(board.click_defined_check(p));
    board.click_on(p)
}

#[test]
fn position_from_coordinates_and_text() {
    let a1 = Position::from_coordinates(0, 0);
    assert_eq!(a1, Position::new('a', 1));
    assert_eq!(Position::from_coordinates(7, 7).to_string(), "h8");
    assert_eq!(Position::new('e', 4).to_string(), "e4");
    assert_eq!(Position::new('z', 200).to_string(), "z200");
    assert_eq!(Position::new('q', 10).to_string(), "q10");
}

#[test]
fn position_relative_squares() {
    let a1 = pos("a1");
    assert_eq!(a1.get_relative_pos(1, 1), Some(pos("b2")));
    assert_eq!(a1.get_relative_pos(-1, 0), None);
    assert_eq!(pos("h8").get_relative_pos(0, 1), None);
    assert_eq!(pos("e4").get_relative_pos(0, 0), Some(pos("e4")));
    // an off-board square can step onto the board
    assert_eq!(Position::new('`', 1).get_relative_pos(1, 0), Some(pos("a1")));
    // composing offsets
    let b3 = pos("a1").get_relative_pos(1, 2).unwrap();
    assert_eq!(b3.get_relative_pos(2, 1), pos("a1").get_relative_pos(3, 3));
}

#[test]
fn position_index_letters() {
    assert_eq!(Position::file_to_char(0), 'a');
    assert_eq!(Position::file_to_char(7), 'h');
    assert_eq!(Position::rank_to_char(0), '1');
    assert_eq!(Position::rank_to_char(7), '8');
}

#[test]
fn piece_text_and_file() {
    let knight = Piece::new(PieceType::Knight, PieceColor::White, pos("g1"));
    assert_eq!(knight.to_string(), "\u{2658} at g1");
    let queen = Piece::new(PieceType::Queen, PieceColor::Black, pos("d8"));
    assert_eq!(queen.to_string(), "\u{265B} at d8");
    assert_eq!(piece_filename(PieceColor::White, PieceType::Knight), "assets/pieces/WN.png");
    assert_eq!(piece_filename(PieceColor::Black, PieceType::King), "assets/pieces/BK.png");
}

#[test]
fn piece_new_has_not_moved() {
    let p = Piece::new(PieceType::Pawn, PieceColor::Black, pos("c7"));
    assert_eq!(p, Piece::Pawn(Pawn { color: PieceColor::Black, position: pos("c7"), has_moved: false }));
    assert_eq!(p.get_color(), PieceColor::Black);
    assert_eq!(p.get_type(), PieceType::Pawn);
    assert_eq!(p.get_position(), pos("c7"));
    let mut k = Piece::new(PieceType::King, PieceColor::White, pos("e1"));
    k.set_position(pos("f1"));
    assert_eq!(k, Piece::King(King { color: PieceColor::White, position: pos("f1"), has_moved: false }));
}

#[test]
fn move_text_and_tuple() {
    let m = MoveNotation {
        moving_piece_color: PieceColor::White,
        moving_piece_type: PieceType::Queen,
        moving_from_position: pos("d1"),
        is_check: true,
        is_self_check: false,
        is_capture: true,
        moving_to_position: pos("d7"),
    };
    assert_eq!(m.to_string(), "\u{2655} d1xd7+");
    assert_eq!(
        MoveNotation::to_tuple(m.clone()),
        (PieceColor::White, PieceType::Queen, pos("d1"), pos("d7"), true, true)
    );
    assert_eq!(m.get_source_pos(), pos("d1"));
    assert!(m.targets_square(&pos("d7")));
    assert!(!m.targets_square(&pos("d1")));
    let quiet = MoveNotation { is_check: false, is_capture: false, moving_piece_color: PieceColor::Black, ..m };
    assert_eq!(quiet.to_string(), "\u{265B} d1d7");
}

#[test]
fn notation_parsing() {
    assert!(notation_is_valid(STARTER));
    assert!(!notation_is_valid(""));
    assert!(!notation_is_valid("WKe1,"));
    assert!(!notation_is_valid("XKe1"));
    assert!(!notation_is_valid("WZe1"));
    assert!(!notation_is_valid("WKex"));
    assert!(notation_is_valid("WKe1extra,BKe8"));
    let pieces = Board::generate_from_notation(STARTER);
    assert_eq!(pieces.len(), 32);
    // a later token replaces an earlier one on the same square
    let pieces = Board::generate_from_notation("WKe1,BQe1");
    assert_eq!(pieces, vec![Piece::new(PieceType::Queen, PieceColor::Black, pos("e1"))]);
}

#[test]
fn notation_round_trip() {
    let board = Board::new(STARTER);
    let text = board.to_notation();
    assert_eq!(text, STARTER);
    let again = Board::new(&text);
    assert_eq!(again.pieces, board.pieces);
    let small = Board::new("BKh8,WQa1");
    assert_eq!(small.to_notation(), "BKh8,WQa1");
}

#[test]
fn starting_position_moves() {
    let board = Board::new(STARTER);
    assert_eq!(board.turn, GameTurn::WhiteTurn);
    let knight = Piece::new(PieceType::Knight, PieceColor::White, pos("g1"));
    assert_eq!(targets(&knight.pseudo_targets(&board)), vec!["f3", "h3"]);
    let pawn = Piece::new(PieceType::Pawn, PieceColor::White, pos("e2"));
    assert_eq!(targets(&pawn.pseudo_targets(&board)), vec!["e3", "e4"]);
    let rook = Piece::new(PieceType::Rook, PieceColor::White, pos("a1"));
    assert!(rook.pseudo_targets(&board).is_empty());
    assert_eq!(targets(&board.legal_targets_for(&knight)), vec!["f3", "h3"]);
    assert_eq!(board.is_check_mate(), None);
}

#[test]
fn sliding_pieces_stop_at_pieces() {
    let board = Board::new("WRd4,WPd6,BPf4,WKa1,BKh8");
    let rook = Piece::new(PieceType::Rook, PieceColor::White, pos("d4"));
    let moves = rook.pseudo_targets(&board);
    assert_eq!(
        targets(&moves),
        vec!["a4", "b4", "c4", "d1", "d2", "d3", "d5", "e4", "f4"]
    );
    let capture = moves.iter().find(|m| m.get_target_pos() == pos("f4")).unwrap();
    assert!(capture.is_capture);
    assert!(moves.iter().filter(|m| m.is_capture).count() == 1);
    let queen = Piece::new(PieceType::Queen, PieceColor::White, pos("d4"));
    let qmoves = queen.pseudo_targets(&board);
    assert_eq!(qmoves.len(), 9 + 12);
    // queen moves are generated as rook moves, then bishop moves
    assert_eq!(qmoves[0].moving_piece_type, PieceType::Rook);
    assert_eq!(qmoves[qmoves.len() - 1].moving_piece_type, PieceType::Bishop);
    let bishop = Piece::new(PieceType::Bishop, PieceColor::White, pos("a1"));
    let empty = Board::new("WKe1,BKe8");
    assert_eq!(bishop.pseudo_targets(&empty).len(), 7);
    assert_eq!(Rook::get_relative_targets(pos("a1"), &empty).len(), 10);
}

#[test]
fn pawn_moves_and_captures() {
    let board = Board::new("WPe2,BPd3,BNe4,WKa1,BKh8");
    let pawn = Piece::new(PieceType::Pawn, PieceColor::White, pos("e2"));
    // e4 is blocked for the double step, d3 is a capture
    assert_eq!(targets(&pawn.pseudo_targets(&board)), vec!["d3", "e3"]);
    let black = Piece::new(PieceType::Pawn, PieceColor::Black, pos("d3"));
    assert_eq!(targets(&black.pseudo_targets(&board)), vec!["d2", "e2"]);
}

#[test]
fn king_and_knight_jumps() {
    let board = Board::new("WKa1,WNb3,BKh8");
    let king = Piece::new(PieceType::King, PieceColor::White, pos("a1"));
    assert_eq!(targets(&king.pseudo_targets(&board)), vec!["a2", "b1", "b2"]);
    let knight = Piece::new(PieceType::Knight, PieceColor::White, pos("b3"));
    assert_eq!(targets(&knight.pseudo_targets(&board)), vec!["a5", "c1", "c5", "d2", "d4"]);
}

#[test]
fn pinned_piece_has_no_legal_moves() {
    let board = Board::new("WKe1,WRe2,BRe8,BKa8");
    let rook = Piece::new(PieceType::Rook, PieceColor::White, pos("e2"));
    let legal = board.legal_targets_for(&rook);
    assert_eq!(targets(&legal), vec!["e3", "e4", "e5", "e6", "e7", "e8"]);
    let capture = legal.iter().find(|m| m.get_target_pos() == pos("e8")).unwrap();
    assert!(capture.is_capture);
    assert!(legal.iter().all(|m| !m.is_self_check));
    let king = Piece::new(PieceType::King, PieceColor::White, pos("e1"));
    assert_eq!(targets(&board.legal_targets_for(&king)), vec!["d1", "d2", "f1", "f2"]);
}

#[test]
fn legal_moves_mark_checks() {
    let board = Board::new("WKa1,WRb2,BKh8");
    let rook = Piece::new(PieceType::Rook, PieceColor::White, pos("b2"));
    let legal = board.legal_targets_for(&rook);
    let to_h2 = legal.iter().find(|m| m.get_target_pos() == pos("h2")).unwrap();
    assert!(to_h2.is_check);
    let to_b8 = legal.iter().find(|m| m.get_target_pos() == pos("b8")).unwrap();
    assert!(to_b8.is_check);
    let to_c2 = legal.iter().find(|m| m.get_target_pos() == pos("c2")).unwrap();
    assert!(!to_c2.is_check);
}

#[test]
fn fools_mate_is_checkmate() {
    let mut board = Board::new(STARTER);
    assert_eq!(click(&mut board, "f2"), ClickOutcome::Selected);
    assert!(matches!(click(&mut board, "f3"), ClickOutcome::Moved { checkmated: None, .. }));
    assert_eq!(board.turn, GameTurn::BlackTurn);
    click(&mut board, "e7");
    click(&mut board, "e5");
    click(&mut board, "g2");
    click(&mut board, "g4");
    assert_eq!(click(&mut board, "d8"), ClickOutcome::Selected);
    match click(&mut board, "h4") {
        ClickOutcome::Moved { notation, checkmated } => {
            assert!(notation.is_check);
            assert_eq!(checkmated, Some(PieceColor::White));
            // the queen's diagonal moves are generated as bishop moves
            assert_eq!(notation.to_string(), "\u{265D} d8h4+");
        }
        other => panic!("unexpected {:?}", other),
    }
    assert_eq!(board.is_check_mate(), Some(PieceColor::White));
    // no white piece has a move that gets the king out of check
    let white: Vec<Piece> = board.pieces.iter().filter(|p| p.get_color() == PieceColor::White).cloned().collect();
    assert_eq!(white.len(), 16);
    for p in &white {
        assert!(board.legal_targets_for(p).is_empty());
    }
}

#[test]
fn capture_moves_piece_to_graveyard() {
    let mut board = Board::new("WKa1,WRd1,BQd7,BKh8");
    let m = MoveNotation::from_target(
        &Piece::new(PieceType::Rook, PieceColor::White, pos("d1")),
        pos("d7"),
        &board,
    );
    assert!(m.is_capture);
    let sim = board.simulate_move(&m);
    assert_eq!(board.pieces.len(), 4);
    assert_eq!(sim.pieces.len(), 3);
    board.make_move(&m);
    assert_eq!(board.pieces.len(), 3);
    assert_eq!(board.piece_graveyard, vec![Piece::new(PieceType::Queen, PieceColor::Black, pos("d7"))]);
    assert_eq!(board.turn, GameTurn::BlackTurn);
    assert_eq!(board.pieces, sim.pieces);
    assert!(board.piece_at(pos("d1")).is_none());
    assert_eq!(
        board.piece_at(pos("d7")),
        Some(Piece::new(PieceType::Rook, PieceColor::White, pos("d7")))
    );
}

#[test]
fn move_notation_board_queries() {
    let board = Board::new("WKa1,WRd1,BQd7,BKd8");
    let rook = Piece::new(PieceType::Rook, PieceColor::White, pos("d1"));
    let mut m = MoveNotation::from_target(&rook, pos("d8"), &board);
    assert!(m.is_capture);
    assert_eq!(m.targets_enemy(&board, PieceColor::White), Some(Piece::new(PieceType::King, PieceColor::Black, pos("d8"))));
    assert_eq!(m.targets_enemy(&board, PieceColor::Black), None);
    assert!(m.targets_enemy_king(&board, PieceColor::White));
    m.apply_check_status(&board);
    assert!(m.is_check);
    let mut quiet = MoveNotation::from_target(&rook, pos("d2"), &board);
    assert!(!quiet.is_capture);
    quiet.apply_check_status(&board);
    assert!(!quiet.is_check);
}

#[test]
fn click_selection_flow() {
    let mut board = Board::new(STARTER);
    // nothing selected, empty square
    assert_eq!(click(&mut board, "e4"), ClickOutcome::Ignored);
    // an enemy piece cannot be selected
    assert_eq!(click(&mut board, "e7"), ClickOutcome::Ignored);
    assert_eq!(click(&mut board, "g1"), ClickOutcome::Selected);
    assert_eq!(board.selected_piece_location(), Some(pos("g1")));
    assert_eq!(targets(&board.selected_legal_targets()), vec!["f3", "h3"]);
    assert!(board.selected_move_to(pos("f3")).is_some());
    assert!(board.selected_move_to(pos("g3")).is_none());
    // an illegal target drops the selection
    assert_eq!(click(&mut board, "g3"), ClickOutcome::Deselected);
    assert_eq!(board.selected_piece_location(), None);
    assert!(board.selected_legal_targets().is_empty());
    click(&mut board, "g1");
    match click(&mut board, "f3") {
        ClickOutcome::Moved { notation, checkmated } => {
            assert_eq!(notation.to_string(), "\u{2658} g1f3");
            assert_eq!(checkmated, None);
        }
        other => panic!("unexpected {:?}", other),
    }
    assert_eq!(board.turn, GameTurn::BlackTurn);
    assert!(board.piece_at(pos("f3")).is_some());
    board.clear_selection();
    assert_eq!(board.selected_piece_location(), None);
}

#[test]
fn select_piece_records_moves() {
    let mut board = Board::new(STARTER);
    let pawn = Piece::new(PieceType::Pawn, PieceColor::White, pos("d2"));
    board.select_piece(&pawn);
    assert_eq!(board.selected_piece_location(), Some(pos("d2")));
    assert_eq!(targets(&board.selected_legal_targets()), vec!["d3", "d4"]);
}

#[test]
fn square_colors() {
    let mut board = Board::new(STARTER);
    assert_eq!(board.square_color(0, 0), (0, 0, 0));
    assert_eq!(board.square_color(1, 0), (155, 173, 183));
    click(&mut board, "g1");
    // g1 is (6, 0): light square, selected
    assert_eq!(board.square_color(6, 0), (0, 128, 0));
    // f3 is (5, 2) and h3 is (7, 2): grey-blue squares, targets
    assert_eq!(board.square_color(5, 2), (205, 214, 91));
    assert_eq!(board.square_color(7, 2), (205, 214, 91));
    // an unmarked grey-blue square
    assert_eq!(board.square_color(6, 2), (0, 0, 0));
}

#[test]
fn app_state_buttons() {
    assert_eq!(AppState::default(), AppState::MainMenu);
    assert_eq!(AppState::MainMenu.on_button(MenuButton::NewGame), AppState::Playing);
    assert_eq!(AppState::Playing.on_button(MenuButton::Pause), AppState::Paused);
    assert_eq!(AppState::Playing.on_button(MenuButton::MainMenu), AppState::MainMenu);
    assert_eq!(AppState::Paused.on_button(MenuButton::NewGame), AppState::Paused);
    assert_eq!(GameTurn::default(), GameTurn::WhiteTurn);
    assert_eq!(GameTurn::WhiteTurn.heading(), "White's Turn");
    assert_eq!(GameTurn::BlackTurn.heading(), "Black's Turn");
}

#[test]
fn undefined_inputs_are_detected() {
    // a board without a black king cannot run the checkmate test for black
    let mut board = Board::new("WKa1,WRb2,BPh7");
    board.turn = GameTurn::BlackTurn;
    assert!(!board.check_mate_defined());
    // a piece whose square lies at the edge of i8 arithmetic
    let far = Piece::Knight(Knight { color: PieceColor::White, position: Position::new('a', 127) });
    assert!(!moves_fit_check(&far));
    let near = Piece::new(PieceType::Knight, PieceColor::White, pos("a1"));
    assert!(moves_fit_check(&near));
}
