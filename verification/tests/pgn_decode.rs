use chessgame::board::{Board, Cell, Color, Coord, Piece};
use chessgame::moves::{CastleSide, Move, MoveType};
use chessgame::pgn_decode::{strip_delimited, strip_tags_and_line_comments, tokenize_movetext};
use chessgame::san_move::{parse_san_token, resolve_move, SanMove};

fn c(col: u8, row: u8) -> Coord {
    Coord { col, row }
}

#[test]
fn tokenizer_strips_annotations() {
    let raw = "[Event \"Test\"]\n[Site \"?\"]\n\n1. e4 {best by test} e5 2. Nf3 $1 Nc6 (2... d6 3. d4) 3. Bb5 a6 1-0";
    let (tokens, result) = tokenize_movetext(raw);
    assert_eq!(tokens, vec!["e4", "e5", "Nf3", "Nc6", "Bb5", "a6"]);
    assert_eq!(result, Some("1-0".to_string()));
}

#[test]
fn tokenizer_black_move_numbers_and_draw_result() {
    let (tokens, result) = tokenize_movetext("12... Qxd5 13.O-O 1/2-1/2");
    assert_eq!(tokens, vec!["Qxd5", "O-O"]);
    assert_eq!(result, Some("1/2-1/2".to_string()));
}

#[test]
fn tokenizer_without_result_and_last_result_wins() {
    let (tokens, result) = tokenize_movetext("1.d4 d5");
    assert_eq!(tokens, vec!["d4", "d5"]);
    assert_eq!(result, None);
    let (tokens, result) = tokenize_movetext("* 1. e4 0-1");
    assert_eq!(tokens, vec!["e4"]);
    assert_eq!(result, Some("0-1".to_string()));
}

#[test]
fn tokenizer_drops_bare_numbers() {
    let (tokens, result) = tokenize_movetext("1. 2... 3");
    assert!(tokens.is_empty());
    assert_eq!(result, None);
}

#[test]
fn strip_delimited_nested_and_unbalanced() {
    assert_eq!(strip_delimited("a{b{c}d}e", '{', '}'), "ae");
    assert_eq!(strip_delimited("a}b", '{', '}'), "ab");
    assert_eq!(strip_delimited("a{b", '{', '}'), "a");
    assert_eq!(strip_delimited("plain text", '(', ')'), "plain text");
}

#[test]
fn strip_delimited_twice_is_once() {
    let once = strip_delimited("x(y(z)w)v)u", '(', ')');
    assert_eq!(once, "xvu");
    assert_eq!(strip_delimited(&once, '(', ')'), once);
}

#[test]
fn strip_tags_and_comments_joins_lines() {
    let pgn = "[Event \"x\"]\r\n  [Site \"y\"]\r\n1. e4 e5 ; a comment\r\n2. Nf3\n";
    assert_eq!(strip_tags_and_line_comments(pgn), "1. e4 e5  2. Nf3");
    assert_eq!(strip_tags_and_line_comments(""), "");
    assert_eq!(strip_tags_and_line_comments("a\n\nb"), "a  b");
}

#[test]
fn parse_san_piece_moves() {
    let m = parse_san_token("Nxf3+").unwrap();
    assert_eq!(m.piece, Piece::Knight);
    assert_eq!(m.dest, c(5, 2));
    assert_eq!(m.disambig_col, None);
    assert_eq!(m.disambig_row, None);
    assert_eq!(m.promotion, None);
    assert_eq!(m.castle, None);

    let m = parse_san_token("Rae1").unwrap();
    assert_eq!(m.piece, Piece::Rook);
    assert_eq!(m.disambig_col, Some(0));
    assert_eq!(m.dest, c(4, 0));

    let m = parse_san_token("N5c3!?").unwrap();
    assert_eq!(m.disambig_row, Some(4));
    assert_eq!(m.dest, c(2, 2));

    let m = parse_san_token("Qh4e1#").unwrap();
    assert_eq!(m.disambig_col, Some(7));
    assert_eq!(m.disambig_row, Some(3));
}

#[test]
fn parse_san_pawns_and_promotions() {
    let m = parse_san_token("e4").unwrap();
    assert_eq!(m.piece, Piece::Pawn);
    assert_eq!(m.dest, c(4, 3));

    let m = parse_san_token("bxa8=Q").unwrap();
    assert_eq!(m.piece, Piece::Pawn);
    assert_eq!(m.disambig_col, Some(1));
    assert_eq!(m.dest, c(0, 7));
    assert_eq!(m.promotion, Some(Piece::Queen));

    let m = parse_san_token("gxh1=N+").unwrap();
    assert_eq!(m.promotion, Some(Piece::Knight));
    assert_eq!(m.dest, c(7, 0));
}

#[test]
fn parse_san_castles() {
    for t in ["O-O", "0-0", "O-O+"] {
        let m = parse_san_token(t).unwrap();
        assert_eq!(m.piece, Piece::King);
        assert_eq!(m.castle, Some(CastleSide::Right));
    }
    for t in ["O-O-O", "0-0-0#"] {
        assert_eq!(parse_san_token(t).unwrap().castle, Some(CastleSide::Left));
    }
}

#[test]
fn parse_san_rejects_unreadable_tokens() {
    assert!(parse_san_token("").is_none());
    assert!(parse_san_token("+!").is_none());
    assert!(parse_san_token("e8=").is_none());
    assert!(parse_san_token("e8=K").is_none());
    assert!(parse_san_token("N").is_none());
    assert!(parse_san_token("Ni9").is_none());
    assert!(parse_san_token("Nf0").is_none());
    assert!(parse_san_token("=Q").is_none());
}

fn mv(from: Coord, to: Coord, move_type: MoveType) -> Move {
    Move { origin: from, dest: to, move_type }
}

#[test]
fn resolve_unique_and_ambiguous_moves() {
    let board = Board::init_board();
    let legal = vec![
        mv(c(1, 0), c(2, 2), MoveType::Normal),
        mv(c(1, 0), c(0, 2), MoveType::Normal),
        mv(c(6, 0), c(5, 2), MoveType::Normal),
        mv(c(4, 1), c(4, 3), MoveType::Normal),
    ];
    let nf3 = parse_san_token("Nf3").unwrap();
    assert_eq!(resolve_move(&board, &legal, &nf3), Some((c(6, 0), c(5, 2))));
    let e4 = parse_san_token("e4").unwrap();
    assert_eq!(resolve_move(&board, &legal, &e4), Some((c(4, 1), c(4, 3))));
    let bb4 = parse_san_token("Bb4").unwrap();
    assert_eq!(resolve_move(&board, &legal, &bb4), None);

    let mut grid_board = board;
    grid_board.grid[2][0] = Cell::Occupied(Piece::Knight, Color::White);
    let twice = vec![
        mv(c(1, 0), c(2, 2), MoveType::Normal),
        mv(c(0, 2), c(2, 2), MoveType::Normal),
    ];
    let nc3 = parse_san_token("Nc3").unwrap();
    assert_eq!(resolve_move(&grid_board, &twice, &nc3), None);
    let nbc3 = parse_san_token("Nbc3").unwrap();
    assert_eq!(resolve_move(&grid_board, &twice, &nbc3), Some((c(1, 0), c(2, 2))));
}

#[test]
fn resolve_castles_and_promotions() {
    let mut board = Board::init_board();
    board.grid[6][0] = Cell::Occupied(Piece::Pawn, Color::White);
    let legal = vec![
        mv(c(4, 0), c(6, 0), MoveType::Castle(CastleSide::Right)),
        mv(c(0, 6), c(1, 7), MoveType::Promotion(Piece::Queen)),
        mv(c(0, 6), c(1, 7), MoveType::Promotion(Piece::Knight)),
    ];
    let oo = parse_san_token("O-O").unwrap();
    assert_eq!(resolve_move(&board, &legal, &oo), Some((c(4, 0), c(6, 0))));
    let ooo = parse_san_token("O-O-O").unwrap();
    assert_eq!(resolve_move(&board, &legal, &ooo), None);
    let promo = parse_san_token("axb8=N").unwrap();
    assert_eq!(resolve_move(&board, &legal, &promo), Some((c(0, 6), c(1, 7))));
    let no_promo = SanMove { promotion: None, ..promo };
    assert_eq!(resolve_move(&board, &legal, &no_promo), None);
}

#[test]
fn movetext_is_one_line_without_comments() {
    let text = strip_tags_and_line_comments("[A \"b\"]\n1. e4 ; x\n;only\n2. d4\r\n");
    assert!(!text.contains('\n'));
    assert!(!text.contains(';'));
    assert_eq!(text, "1. e4   2. d4");
}

#[test]
fn tokens_have_no_white_space() {
    let (tokens, _) = tokenize_movetext("1.e4\te5\u{a0}2.Nf3 {a\nb} Nc6\u{3000}3.Bb5");
    assert_eq!(tokens, vec!["e4", "e5", "Nf3", "Nc6", "Bb5"]);
    assert!(tokens.iter().all(|t| !t.is_empty() && !t.chars().any(char::is_whitespace)));
}

#[test]
fn zero_castling_stays_a_move() {
    let (tokens, result) = tokenize_movetext("1. e4 e5 2. Nf3 Nc6 3. Bc4 Bc5 4. 0-0");
    assert_eq!(tokens, vec!["e4", "e5", "Nf3", "Nc6", "Bc4", "Bc5", "0-0"]);
    assert_eq!(result, None);
    let (tokens, _) = tokenize_movetext("12. 0-0-0+ 0-0 13.Qd2");
    assert_eq!(tokens, vec!["0-0-0+", "0-0", "Qd2"]);
}

#[test]
fn stripping_keeps_the_rest_in_order() {
    let text = "1. e4 {good (sharp)} e5 (1... c5) 2. Nf3";
    let out = strip_delimited(text, '{', '}');
    let mut rest = text.chars();
    for ch in out.chars() {
        assert!(rest.any(|t| t == ch));
    }
    assert_eq!(out, "1. e4  e5 (1... c5) 2. Nf3");
}
