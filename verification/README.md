# chess

A chess board with its rules, written in Verus and proved against its contracts,
and a desktop front end built on eframe/egui.

- `src/` is the verified library:
  - `position.rs`: squares, coordinates, offsets between squares;
  - `piece.rs`: piece kinds, colors and pieces;
  - `notation.rs`: moves (`MoveNotation`);
  - `rules.rs`: the rules as mathematics (where pieces stand, candidate moves of
    each kind of piece, check, what a move does to the board, legal moves) and
    the laws of the board as a map from squares to pieces;
  - `moves.rs`: computing the candidate moves of each kind of piece;
  - `board.rs`, `check.rs`, `game.rs`: the board, making moves, check and
    checkmate, selection, and what a click on a square does;
  - `layout.rs`: the comma-separated board text (`WKe1,BKe8,...`) both ways;
  - `defined.rs`: run-time tests of the conditions under which the board
    operations are defined;
  - `css.rs`: reading the `oklch(...)` color variables of a theme's CSS;
  - `laws.rs`: properties of candidate and legal moves and of checkmate;
  - `text.rs`: building strings.
- `app/` is the window: drawing the board and the pieces, the side panels,
  reading the board file and the theme files, and the floating-point color
  conversion of themes.
- `tests/` runs the library on concrete boards.
