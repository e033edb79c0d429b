use chessgame::board::{Board, Cell, Color, Coord, Piece};
use chessgame::game_state::{position_bytes, DrawOption, DrawRule, GameState, LateDraw};
use chessgame::history::History;
use chessgame::promote::promote_pawn;
use chessgame::render::{board_to_ui_row_col, piece_char};
use std::collections::HashMap;

fn c(col: u8, row: u8) -> Coord {
    Coord { col, row }
}

fn empty_board() -> Board {
    Board {
        grid: [[Cell::Free; 8]; 8],
        white_castle: (false, false),
        black_castle: (false, false),
        en_passant: None,
        check: None,
    }
}

#[test]
fn new_game_state() {
    let g = GameState::new();
    assert_eq!(g.active_player, Color::White);
    assert_eq!(g.opponent, Color::Black);
    assert_eq!(g.turn, 1);
    assert!(g.end.is_none());
    assert!(g.last_move.is_none());
    assert!(g.draw.board_hashs.is_empty());
    assert_eq!(g.draw.draw_moves_count, 0);
    assert_eq!(g.board.grid[0][4], Cell::Occupied(Piece::King, Color::White));
    assert_eq!(g.board.grid[7][3], Cell::Occupied(Piece::Queen, Color::Black));
    assert_eq!(g.board.grid[6][5], Cell::Occupied(Piece::Pawn, Color::Black));
    assert_eq!(g.board.grid[4][4], Cell::Free);
    assert_eq!(g.board.white_castle, (true, true));
}

#[test]
fn active_piece_and_switching() {
    let mut g = GameState::new();
    assert!(g.is_active_player_piece(&c(4, 1)));
    assert!(!g.is_active_player_piece(&c(4, 6)));
    assert!(!g.is_active_player_piece(&c(4, 4)));
    g.switch_players_color();
    assert_eq!(g.active_player, Color::Black);
    assert_eq!(g.opponent, Color::White);
    assert!(g.is_active_player_piece(&c(4, 6)));
    g.switch_castle(false, true);
    assert_eq!(g.board.black_castle, (false, true));
    assert_eq!(g.board.white_castle, (true, true));
    g.switch_players_color();
    g.switch_castle(true, false);
    assert_eq!(g.board.white_castle, (true, false));
}

#[test]
fn fifty_move_rule() {
    let mut g = GameState::new();
    // a knight move neither moves a pawn nor captures
    for i in 1..50u32 {
        g.fifty_moves_draw_check(&c(6, 0), &c(5, 2));
        assert_eq!(g.draw.draw_moves_count, i);
        assert_eq!(g.draw.draw_option, None);
    }
    g.fifty_moves_draw_check(&c(6, 0), &c(5, 2));
    assert_eq!(g.draw.draw_moves_count, 50);
    assert_eq!(g.draw.draw_option, Some(DrawOption::Available(DrawRule::FiftyMoves)));
    // a pawn move resets the counter and leaves the option alone
    g.fifty_moves_draw_check(&c(4, 1), &c(4, 3));
    assert_eq!(g.draw.draw_moves_count, 0);
    assert_eq!(g.draw.draw_option, Some(DrawOption::Available(DrawRule::FiftyMoves)));
    // a capture resets it too
    g.fifty_moves_draw_check(&c(6, 0), &c(5, 2));
    g.fifty_moves_draw_check(&c(3, 0), &c(3, 7));
    assert_eq!(g.draw.draw_moves_count, 0);
}

#[test]
fn third_repetition_offers_draw() {
    let mut g = GameState::new();
    g.add_hash();
    assert_eq!(g.draw.draw_option, None);
    g.add_hash();
    assert_eq!(g.draw.draw_option, None);
    g.add_hash();
    assert_eq!(g.draw.draw_option, Some(DrawOption::Available(DrawRule::TripleRepetition)));
    let h = g.draw.draw_hash.expect("the repeated position is claimable");
    assert_eq!(g.draw.board_hashs.get(&h), Some(&0));
    assert_eq!(g.draw.board_hashs.len(), 1);
    // another position counts separately
    g.switch_players_color();
    g.add_hash();
    assert_eq!(g.draw.board_hashs.len(), 2);
    assert!(g.draw.board_hashs.values().all(|&n| n < 3));
}

#[test]
fn record_hash_counts_and_resets() {
    let mut d = LateDraw { board_hashs: HashMap::new(), draw_option: None, draw_moves_count: 7, draw_hash: None };
    d.record_hash(42);
    d.record_hash(9);
    d.record_hash(42);
    assert_eq!(d.board_hashs.get(&42), Some(&2));
    assert_eq!(d.draw_option, None);
    d.record_hash(42);
    assert_eq!(d.draw_option, Some(DrawOption::Available(DrawRule::TripleRepetition)));
    assert_eq!(d.draw_hash, Some(42));
    assert_eq!(d.board_hashs.get(&42), Some(&0));
    // the claimable hash stays at zero while it is the claimable one
    d.record_hash(42);
    assert_eq!(d.board_hashs.get(&42), Some(&0));
    assert_eq!(d.board_hashs.get(&9), Some(&1));
    assert_eq!(d.draw_moves_count, 7);
}

fn place(b: &mut Board, col: usize, row: usize, p: Piece, color: Color) {
    b.grid[row][col] = Cell::Occupied(p, color);
}

#[test]
fn impossible_mate_situations() {
    let mut g = GameState::new();
    assert!(!g.impossible_mate_check());

    let mut b = empty_board();
    place(&mut b, 4, 0, Piece::King, Color::White);
    place(&mut b, 4, 7, Piece::King, Color::Black);
    g.board = b;
    assert!(g.impossible_mate_check());

    place(&mut b, 1, 0, Piece::Knight, Color::White);
    g.board = b;
    assert!(g.impossible_mate_check());

    let mut r = b;
    place(&mut r, 1, 0, Piece::Rook, Color::White);
    g.board = r;
    assert!(!g.impossible_mate_check());

    // a piece on the h-file counts too
    let mut h = b;
    h.grid[0][1] = Cell::Free;
    place(&mut h, 7, 3, Piece::Queen, Color::Black);
    g.board = h;
    assert!(!g.impossible_mate_check());

    let mut two = empty_board();
    place(&mut two, 4, 0, Piece::King, Color::White);
    place(&mut two, 4, 7, Piece::King, Color::Black);
    place(&mut two, 2, 0, Piece::Bishop, Color::White);
    place(&mut two, 5, 0, Piece::Bishop, Color::White);
    g.board = two;
    // two bishops on opposite colors can mate
    assert!(!g.impossible_mate_check());

    // a bishop each, on squares of the same color (c1 and f8)
    let mut same = empty_board();
    place(&mut same, 4, 0, Piece::King, Color::White);
    place(&mut same, 4, 7, Piece::King, Color::Black);
    place(&mut same, 2, 0, Piece::Bishop, Color::White);
    place(&mut same, 5, 7, Piece::Bishop, Color::Black);
    g.board = same;
    assert!(g.impossible_mate_check());

    let mut each = empty_board();
    place(&mut each, 4, 0, Piece::King, Color::White);
    place(&mut each, 4, 7, Piece::King, Color::Black);
    place(&mut each, 2, 0, Piece::Bishop, Color::White);
    place(&mut each, 2, 7, Piece::Bishop, Color::Black);
    g.board = each;
    // a bishop each, on squares of different colors (c1 and c8)
    assert!(!g.impossible_mate_check());

    let mut black_pair = empty_board();
    place(&mut black_pair, 4, 0, Piece::King, Color::White);
    place(&mut black_pair, 4, 7, Piece::King, Color::Black);
    place(&mut black_pair, 2, 7, Piece::Bishop, Color::Black);
    place(&mut black_pair, 5, 7, Piece::Bishop, Color::Black);
    g.board = black_pair;
    assert!(!g.impossible_mate_check());
}

#[test]
fn history_starts_empty() {
    let h = History::new();
    assert!(h.snapshots.is_empty());
    assert_eq!(h.history_san, "");
    let d = History::default();
    assert!(d.snapshots.is_empty());
}

#[test]
fn piece_symbols_and_flip() {
    assert_eq!(piece_char(Color::White, &Piece::King), '♚');
    assert_eq!(piece_char(Color::Black, &Piece::Pawn), '♙');
    assert_eq!(piece_char(Color::White, &Piece::Knight), '♞');
    assert_eq!(board_to_ui_row_col(0, 3, true), (7, 3));
    assert_eq!(board_to_ui_row_col(2, 5, false), (2, 5));
    let (r, _) = board_to_ui_row_col(6, 1, true);
    assert_eq!(board_to_ui_row_col(r, 1, true), (6, 1));
}

#[test]
fn promotion_is_prepared_for_a_pawn_on_the_last_rank() {
    let prev = Board::init_board();
    let mut after = prev;
    assert!(promote_pawn(&after, &Color::White, &c(0, 6), &c(0, 7), &prev).is_none());
    after.grid[7][0] = Cell::Occupied(Piece::Pawn, Color::White);
    let info = promote_pawn(&after, &Color::White, &c(0, 6), &c(0, 7), &prev).unwrap();
    assert_eq!(info.from, c(0, 6));
    assert_eq!(info.to, c(0, 7));
    assert_eq!(info.pawn_to_promote, Some(c(0, 7)));
    assert_eq!(info.promote, None);
    assert_eq!(info.prev_board, prev);
    assert!(promote_pawn(&after, &Color::Black, &c(0, 6), &c(0, 7), &prev).is_none());
}

#[test]
fn record_move_updates_castling_turn_and_side() {
    let mut g = GameState::new();
    // White king steps to f1: both white castling flags go
    g.board.grid[0][5] = Cell::Occupied(Piece::King, Color::White);
    g.record_move(c(4, 0), c(5, 0));
    assert_eq!(g.board.white_castle, (false, false));
    assert_eq!(g.board.black_castle, (true, true));
    assert_eq!(g.active_player, Color::Black);
    assert_eq!(g.opponent, Color::White);
    assert_eq!(g.turn, 1);
    assert_eq!(g.last_move, Some((c(4, 0), c(5, 0))));
    // Black rook arrives on file h: the first black flag goes
    g.board.grid[5][7] = Cell::Occupied(Piece::Rook, Color::Black);
    g.record_move(c(7, 7), c(7, 5));
    assert_eq!(g.board.black_castle, (false, true));
    assert_eq!(g.active_player, Color::White);
    assert_eq!(g.opponent, Color::Black);
    assert_eq!(g.turn, 2);
    // a pawn move changes no flag
    g.record_move(c(0, 1), c(0, 2));
    assert_eq!(g.board.white_castle, (false, false));
    assert_eq!(g.turn, 2);
}

#[test]
fn position_key_holds_what_repetition_compares() {
    let mut g = GameState::new();
    let k = g.position_key();
    assert_eq!(k.0, ((true, true), (true, true)));
    assert_eq!(k.1, None);
    assert_eq!(k.2, Color::White);
    assert_eq!(k.3, g.board.grid);
    g.active_player = Color::Black;
    g.board.en_passant = Some(c(4, 2));
    let k2 = g.position_key();
    assert_eq!(k2.1, Some(c(4, 2)));
    assert_eq!(k2.2, Color::Black);
    assert_ne!(k, k2);
}

#[test]
fn position_bytes_encode_the_key() {
    let mut g = GameState::new();
    let b = position_bytes(&g.position_key());
    assert_eq!(b.len(), 72);
    assert_eq!(&b[0..8], &[1, 1, 1, 1, 0, 0, 0, 0]);
    // a1 holds a white rook, e1 the white king, a2 a white pawn, e8 the black king
    assert_eq!(b[8], 3);
    assert_eq!(b[8 + 4], 11);
    assert_eq!(b[8 + 8], 1);
    assert_eq!(b[8 + 60], 12);
    assert_eq!(b[8 + 20], 0);
    g.active_player = Color::Black;
    g.board.en_passant = Some(c(4, 2));
    g.board.white_castle = (false, true);
    let b2 = position_bytes(&g.position_key());
    assert_eq!(&b2[0..8], &[0, 1, 1, 1, 1, 2, 4, 1]);
}
