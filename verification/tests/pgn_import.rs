use chessgame::board::{Board, Color, Coord, Piece};
use chessgame::moves::{CastleSide, Move, MoveType};
use chessgame::pgn_import::{
    import_finish, import_move, import_record, import_rejected, import_tokens, ImportError,
};

fn c(col: u8, row: u8) -> Coord {
    Coord { col, row }
}

fn normal(from: Coord, to: Coord) -> Move {
    Move { origin: from, dest: to, move_type: MoveType::Normal }
}

#[test]
fn import_needs_a_move() {
    assert_eq!(import_tokens("[Event \"x\"]\n\n1-0"), Err(ImportError::NoMoves));
    assert_eq!(ImportError::NoMoves.message(), "No moves found in this PGN.");
    let (tokens, result) = import_tokens("1. e4 e5 *").unwrap();
    assert_eq!(tokens, vec!["e4", "e5"]);
    assert_eq!(result, Some("*".to_string()));
}

#[test]
fn import_move_reads_and_resolves() {
    let board = Board::init_board();
    let legal = vec![normal(c(4, 1), c(4, 3)), normal(c(6, 0), c(5, 2)), normal(c(1, 0), c(2, 2))];
    assert_eq!(import_move(0, &"e4".to_string(), &board, &legal), Ok((c(4, 1), c(4, 3), None)));
    assert_eq!(import_move(0, &"Nf3!?".to_string(), &board, &legal), Ok((c(6, 0), c(5, 2), None)));
    let bad = import_move(2, &"Zz9".to_string(), &board, &legal);
    assert_eq!(bad, Err(ImportError::Unreadable(3, "Zz9".to_string())));
    assert_eq!(bad.unwrap_err().message(), "Move 3 unreadable: \"Zz9\"");
    let illegal = import_move(10, &"Bb4".to_string(), &board, &legal);
    assert_eq!(illegal, Err(ImportError::IllegalOrAmbiguous(11, "Bb4".to_string())));
    assert_eq!(illegal.unwrap_err().message(), "Move 11 illegal or ambiguous: \"Bb4\"");
    assert_eq!(import_rejected(4, &"Qh5".to_string()).message(), "Move 5 rejected by the engine: \"Qh5\"");
}

#[test]
fn import_move_castles_and_promotes() {
    let mut board = Board::init_board();
    board.grid[6][0] = chessgame::board::Cell::Occupied(Piece::Pawn, Color::White);
    let legal = vec![
        Move { origin: c(4, 0), dest: c(6, 0), move_type: MoveType::Castle(CastleSide::Right) },
        Move { origin: c(0, 6), dest: c(1, 7), move_type: MoveType::Promotion(Piece::Knight) },
        Move { origin: c(0, 6), dest: c(1, 7), move_type: MoveType::Promotion(Piece::Queen) },
    ];
    assert_eq!(import_move(0, &"0-0".to_string(), &board, &legal), Ok((c(4, 0), c(6, 0), None)));
    assert_eq!(
        import_move(0, &"axb8=N+".to_string(), &board, &legal),
        Ok((c(0, 6), c(1, 7), Some(Piece::Knight)))
    );
    assert!(matches!(
        import_move(0, &"O-O-O".to_string(), &board, &legal),
        Err(ImportError::IllegalOrAmbiguous(1, _))
    ));
}

#[test]
fn import_rebuilds_the_move_text() {
    let mut san = String::new();
    import_record(&mut san, Color::White, 1, &"e4!".to_string());
    import_record(&mut san, Color::Black, 1, &"e5?!".to_string());
    import_record(&mut san, Color::White, 12, &"Qh5+".to_string());
    import_finish(&mut san, &Some("1-0".to_string()));
    assert_eq!(san, "1. e4 e5 12. Qh5+ 1-0");
    import_finish(&mut san, &None);
    assert_eq!(san, "1. e4 e5 12. Qh5+ 1-0");
}
