use chessgame::app_types::End;
use chessgame::board::{Board, Cell, Color, Coord, Piece};
use chessgame::moves::{Move, MoveType};
use chessgame::pgn_encode::SanRecorder;
use chessgame::pgn_export::{export_pgn_text, export_pgn_with_clock, pgn_text};
use chessgame::pgn_decode::tokenize_movetext;
use chessgame::san_move::parse_san_token;

fn c(col: u8, row: u8) -> Coord {
    Coord { col, row }
}

fn recorder(board: Board, active_player: Color, turn: u32) -> SanRecorder {
    SanRecorder {
        history_san: String::new(),
        board,
        active_player,
        turn,
        end: None,
        history_len: 0,
        replay_index: 0,
        prev_legal_moves: Vec::new(),
    }
}

fn play(prev: &Board, from: Coord, to: Coord) -> Board {
    let mut b = *prev;
    b.grid[to.row as usize][to.col as usize] = b.grid[from.row as usize][from.col as usize];
    b.grid[from.row as usize][from.col as usize] = Cell::Free;
    b
}

#[test]
fn white_pawn_move_gets_its_number() {
    let prev = Board::init_board();
    let after = play(&prev, c(4, 1), c(4, 3));
    let mut r = recorder(after, Color::Black, 1);
    r.encode_move_to_san(&c(4, 1), &c(4, 3), &prev);
    assert_eq!(r.history_san, "1. e4 ");
}

#[test]
fn black_knight_move_has_no_number() {
    let prev = Board::init_board();
    let after = play(&prev, c(6, 7), c(5, 5));
    let mut r = recorder(after, Color::White, 12);
    r.history_san.push_str("12. e4 ");
    r.encode_move_to_san(&c(6, 7), &c(5, 5), &prev);
    assert_eq!(r.history_san, "12. e4 Nf6 ");
}

#[test]
fn captures_checks_and_numbers_above_nine() {
    let mut prev = Board::init_board();
    prev.grid[4][3] = Cell::Occupied(Piece::Pawn, Color::Black);
    prev.grid[3][4] = Cell::Occupied(Piece::Pawn, Color::White);
    let mut after = play(&prev, c(4, 3), c(3, 4));
    after.check = Some(c(4, 7));
    let mut r = recorder(after, Color::Black, 105);
    r.encode_move_to_san(&c(4, 3), &c(3, 4), &prev);
    assert_eq!(r.history_san, "105. exd5+ ");

    let prev = Board::init_board();
    let after = play(&prev, c(3, 0), c(3, 6));
    let mut r = recorder(after, Color::Black, 3);
    r.encode_move_to_san(&c(3, 0), &c(3, 6), &prev);
    assert_eq!(r.history_san, "3. Qxd7 ");
}

#[test]
fn castling_and_promotion() {
    let mut prev = Board::init_board();
    prev.grid[0][5] = Cell::Free;
    prev.grid[0][6] = Cell::Free;
    let after = play(&prev, c(4, 0), c(6, 0));
    let mut r = recorder(after, Color::Black, 5);
    r.encode_move_to_san(&c(4, 0), &c(6, 0), &prev);
    assert_eq!(r.history_san, "5. O-O ");

    let after = play(&prev, c(4, 7), c(2, 7));
    let mut r = recorder(after, Color::White, 5);
    r.encode_move_to_san(&c(4, 7), &c(2, 7), &prev);
    assert_eq!(r.history_san, "O-O-O ");

    let mut prev = Board::init_board();
    prev.grid[6][0] = Cell::Occupied(Piece::Pawn, Color::White);
    let mut after = play(&prev, c(0, 6), c(1, 7));
    after.grid[7][1] = Cell::Occupied(Piece::Queen, Color::White);
    let mut r = recorder(after, Color::Black, 5);
    r.encode_move_to_san(&c(0, 6), &c(1, 7), &prev);
    assert_eq!(r.history_san, "5. axb8=Q ");
}

#[test]
fn game_endings() {
    let prev = Board::init_board();
    let after = play(&prev, c(3, 0), c(7, 4));
    let mut r = recorder(after, Color::Black, 4);
    r.end = Some(End::Checkmate);
    r.encode_move_to_san(&c(3, 0), &c(7, 4), &prev);
    assert_eq!(r.history_san, "4. Qh5# 1-0 ");

    let mut r = recorder(after, Color::Black, 4);
    r.end = Some(End::Resign);
    r.encode_move_to_san(&c(3, 0), &c(7, 4), &prev);
    assert_eq!(r.history_san, "4. Qh5 0-1 ");

    let mut r = recorder(after, Color::Black, 4);
    r.end = Some(End::Draw);
    r.board.check = Some(c(4, 7));
    r.encode_move_to_san(&c(3, 0), &c(7, 4), &prev);
    assert_eq!(r.history_san, "4. Qh5 1/2-1/2 ");

    let mut r = recorder(after, Color::White, 4);
    r.end = Some(End::TimeOut);
    r.encode_move_to_san(&c(3, 0), &c(7, 4), &prev);
    assert_eq!(r.history_san, "Qh5 1-0 ");

    let mut r = recorder(after, Color::White, 4);
    r.end = Some(End::Pat);
    r.encode_move_to_san(&c(3, 0), &c(7, 4), &prev);
    assert_eq!(r.history_san, "Qh5 1/2-1/2 ");
}

#[test]
fn ambiguous_knight_moves_are_disambiguated() {
    let mut prev = Board::init_board();
    prev.grid[1][3] = Cell::Free;
    prev.grid[4][1] = Cell::Occupied(Piece::Knight, Color::White);
    let after = play(&prev, c(1, 0), c(3, 1));
    let mut r = recorder(after, Color::Black, 6);
    r.history_len = 10;
    r.replay_index = 10;
    r.prev_legal_moves = vec![
        Move { origin: c(1, 0), dest: c(3, 1), move_type: MoveType::Normal },
        Move { origin: c(6, 0), dest: c(5, 2), move_type: MoveType::Normal },
        Move { origin: c(1, 4), dest: c(3, 1), move_type: MoveType::Normal },
    ];
    r.encode_move_to_san(&c(1, 0), &c(3, 1), &prev);
    assert_eq!(r.history_san, "6. N1d2 ");

    let mut r2 = recorder(after, Color::Black, 6);
    r2.prev_legal_moves = r.prev_legal_moves.clone();
    r2.encode_move_to_san(&c(1, 0), &c(3, 1), &prev);
    assert_eq!(r2.history_san, "6. Nd2 ");
}

#[test]
fn pgn_file_text() {
    let text = pgn_text("1. e4 e5 2. Qh5 1-0", "2024-01-02").unwrap();
    assert_eq!(
        text,
        "[Event \"ChessGame\"]\n[Site \"ChessGame\"]\n[Date \"2024-01-02\"]\n[White \"White_player\"]\n[Black \"Black_player\"]\n[Result : \"1-0\"]\n\n1. e4 e5 2. Qh5 1-0\n"
    );
    let open = pgn_text("1. e4 ", "d").unwrap();
    assert!(open.contains("[Result : \"*\"]"));
    assert!(pgn_text("   ", "d").is_none());
    assert!(export_pgn_text("").is_none());
    let now = export_pgn_text("1. d4 0-1").unwrap();
    assert!(now.starts_with("[Event \"ChessGame\"]\n[Site \"ChessGame\"]\n[Date \""));
    assert!(now.ends_with("[Result : \"0-1\"]\n\n1. d4 0-1\n"));
}

#[test]
fn written_moves_read_back() {
    let prev = Board::init_board();
    let after = play(&prev, c(6, 0), c(5, 2));
    let mut r = recorder(after, Color::Black, 1);
    r.encode_move_to_san(&c(6, 0), &c(5, 2), &prev);
    let token = r.history_san.split_whitespace().last().unwrap().to_string();
    let m = parse_san_token(&token).unwrap();
    assert_eq!((m.piece, m.dest), (Piece::Knight, c(5, 2)));

    let mut prev = Board::init_board();
    prev.grid[6][0] = Cell::Occupied(Piece::Pawn, Color::White);
    let mut after = play(&prev, c(0, 6), c(1, 7));
    after.grid[7][1] = Cell::Occupied(Piece::Rook, Color::White);
    after.check = Some(c(4, 7));
    let mut r = recorder(after, Color::White, 9);
    r.encode_move_to_san(&c(0, 6), &c(1, 7), &prev);
    assert_eq!(r.history_san, "axb8=R+ ");
    let m = parse_san_token(r.history_san.trim()).unwrap();
    assert_eq!(m.piece, Piece::Pawn);
    assert_eq!(m.disambig_col, Some(0));
    assert_eq!(m.dest, c(1, 7));
    assert_eq!(m.promotion, Some(Piece::Rook));
}

#[test]
fn written_game_tokenizes_back() {
    let b0 = Board::init_board();
    let b1 = play(&b0, c(4, 1), c(4, 3));
    let b2 = play(&b1, c(4, 6), c(4, 4));
    let b3 = play(&b2, c(3, 0), c(7, 4));
    let mut r = recorder(b1, Color::Black, 1);
    r.encode_move_to_san(&c(4, 1), &c(4, 3), &b0);
    r.board = b2;
    r.active_player = Color::White;
    r.encode_move_to_san(&c(4, 6), &c(4, 4), &b1);
    r.board = b3;
    r.board.check = Some(c(4, 7));
    r.active_player = Color::Black;
    r.turn = 2;
    r.encode_move_to_san(&c(3, 0), &c(7, 4), &b2);
    assert_eq!(r.history_san, "1. e4 e5 2. Qh5+ ");
    let (tokens, result) = tokenize_movetext(&r.history_san);
    assert_eq!(tokens, vec!["e4", "e5", "Qh5+"]);
    assert_eq!(result, None);
    let q = parse_san_token(&tokens[2]).unwrap();
    assert_eq!((q.piece, q.dest), (Piece::Queen, c(7, 4)));
}

#[test]
fn drawn_game_reads_back_with_its_result() {
    let b0 = Board::init_board();
    let b1 = play(&b0, c(4, 1), c(4, 3));
    let mut r = recorder(b1, Color::Black, 1);
    r.end = Some(End::Draw);
    r.encode_move_to_san(&c(4, 1), &c(4, 3), &b0);
    assert_eq!(r.history_san, "1. e4 1/2-1/2 ");
    let (tokens, result) = tokenize_movetext(&r.history_san);
    assert_eq!(tokens, vec!["e4"]);
    assert_eq!(result, Some("1/2-1/2".to_string()));
    let text = pgn_text(&r.history_san, "d").unwrap();
    assert!(text.contains("[Result : \"1/2-1/2\"]"));
}

#[test]
fn mate_reads_back_with_its_result() {
    let prev = Board::init_board();
    let after = play(&prev, c(3, 0), c(7, 4));
    let mut r = recorder(after, Color::Black, 4);
    r.end = Some(End::Checkmate);
    r.encode_move_to_san(&c(3, 0), &c(7, 4), &prev);
    let (tokens, result) = tokenize_movetext(&r.history_san);
    assert_eq!(tokens, vec!["Qh5#"]);
    assert_eq!(result, Some("1-0".to_string()));
    let q = parse_san_token(&tokens[0]).unwrap();
    assert_eq!((q.piece, q.dest), (Piece::Queen, c(7, 4)));
}

#[test]
fn export_is_dated_by_the_clock() {
    let text = export_pgn_with_clock("1. e4 1/2-1/2 ", Some((0, 0))).unwrap();
    assert!(text.contains("[Date \"1970-01-01 00:00:00 UTC\"]"));
    assert!(text.contains("[Result : \"1/2-1/2\"]"));
    let later = export_pgn_with_clock("1. e4 ", Some((1431648000, 0))).unwrap();
    assert!(later.contains("[Date \"2015-05-15 00:00:00 UTC\"]"));
    assert!(export_pgn_with_clock("1. e4 ", None).is_none());
    assert!(export_pgn_with_clock("1. e4 ", Some((0, 2_000_000_000))).is_none());
    assert!(export_pgn_with_clock("  ", Some((0, 0))).is_none());
}
