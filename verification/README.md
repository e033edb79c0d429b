# chessgame

The game logic behind a chess interface, verified with Verus.

- `src/` is the verified library:
  - `board`: squares, pieces, colors and the board, with the starting position;
  - `game_state`: the state of a game and the draw rules (threefold
    repetition counted over position hashes, the fifty-move rule, material
    with which mate is impossible), plus the bookkeeping after a move;
  - `pgn_decode` and `san_move`: reading PGN text (tag pairs, comments,
    variations, move numbers, annotation glyphs, results) and SAN move tokens,
    and matching a SAN move against a list of legal moves;
  - `pgn_encode`: writing the SAN of a played move, with move numbers,
    disambiguation, captures, promotions, castling, checks and results;
  - `pgn_export`: the text of a PGN file, dated by the clock through chrono;
  - `pgn_import`: the steps of importing a game (reading the moves, matching
    each against the legal moves the engine gives, the error messages, and
    the rebuilt move text); the loop that drives the engine is in `app/`;
  - `round_trip`: the proof that written move text reads back as the moves
    and the result that were written;
  - `replay`, `undo`, `promote`, `render`, `history`, `app_types`: replay
    navigation, undo permissions, pending promotions, the piece symbols,
    the board orientation, coordinate labels and square highlights, and the plain data types of the application.
- `tests/` exercises the library.
- `app/` holds what works with egui drawing, floating-point clocks and files.
