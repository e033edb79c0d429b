use vstd::prelude::*;

use std::collections::hash_map::DefaultHasher;
use std::collections::HashMap;
use std::hash::Hasher;
use vstd::std_specs::hash::DefaultHasherAdditionalSpecFns;

use crate::app_types::End;
use crate::board::{initial_cell, Board, Cell, Color, Coord, Piece};

verus! {

broadcast use vstd::std_specs::hash::group_hash_axioms;

/// A draw the players may claim: one asked by a player, or one a rule allows.
#[derive(Clone, Copy, Debug, PartialEq, Eq, Structural)]
pub enum DrawOption {
    Request,
    Available(DrawRule),
}

/// The rules that allow a draw to be claimed.
#[derive(Clone, Copy, Debug, PartialEq, Eq, Structural)]
pub enum DrawRule {
    TripleRepetition,
    FiftyMoves,
}

/// What the draw rules keep track of: how many times each position hash was
/// seen, the draw currently claimable, the number of moves since the last pawn
/// move or capture, and the hash whose repetition made the draw claimable.
#[derive(Clone, Debug, PartialEq)]
pub struct LateDraw {
    pub board_hashs: HashMap<u64, usize>,
    pub draw_option: Option<DrawOption>,
    pub draw_moves_count: u32,
    pub draw_hash: Option<u64>,
}

/// The mathematical content of a [`LateDraw`].
pub struct LateDrawView {
    pub counts: Map<u64, usize>,
    pub draw_option: Option<DrawOption>,
    pub draw_moves_count: u32,
    pub draw_hash: Option<u64>,
}

impl View for LateDraw {
    type V = LateDrawView;

    open spec fn view(&self) -> LateDrawView {
        LateDrawView {
            counts: self.board_hashs@,
            draw_option: self.draw_option,
            draw_moves_count: self.draw_moves_count,
            draw_hash: self.draw_hash,
        }
    }
}

/// The number of times `h` was seen (0 when it never was).
pub open spec fn count_of(counts: Map<u64, usize>, h: u64) -> int {
    if counts.contains_key(h) {
        counts[h] as int
    } else {
        0
    }
}

/// The draw state after the position hash `h` was seen once more: its count
/// goes up by one; a third sighting makes the triple-repetition draw
/// claimable on `h`; then the count of the claimable hash, if it has one, is
/// set back to zero.
pub open spec fn record_hash_spec(d: LateDrawView, h: u64) -> LateDrawView {
    let c = count_of(d.counts, h) + 1;
    let counts1 = d.counts.insert(h, c as usize);
    let draw_option = if c == 3 {
        Some(DrawOption::Available(DrawRule::TripleRepetition))
    } else {
        d.draw_option
    };
    let draw_hash = if c == 3 {
        Some(h)
    } else {
        d.draw_hash
    };
    let counts2 = match draw_hash {
        Some(dh) => if counts1.contains_key(dh) {
            counts1.insert(dh, 0)
        } else {
            counts1
        },
        None => counts1,
    };
    LateDrawView { counts: counts2, draw_option, draw_moves_count: d.draw_moves_count, draw_hash }
}

/// No position hash has been counted three times or more.
pub open spec fn counts_below_three(counts: Map<u64, usize>) -> bool {
    forall|k: u64| #[trigger] counts.contains_key(k) ==> counts[k] < 3
}

impl LateDraw {
    /// Records one more sighting of the position hash `h` (see
    /// [`record_hash_spec`]).
    pub fn record_hash(&mut self, h: u64)
        requires
            count_of(old(self)@.counts, h) < usize::MAX,
        ensures
            final(self)@ == record_hash_spec(old(self)@, h),
    {
        let previous: usize = match self.board_hashs.get(&h) {
            Some(c) => *c,
            None => 0,
        };
        let count: usize = previous + 1;
        self.board_hashs.insert(h, count);
        if count == 3 {
            self.draw_option = Some(DrawOption::Available(DrawRule::TripleRepetition));
            self.draw_hash = Some(h);
        }
        if let Some(dh) = self.draw_hash {
            if self.board_hashs.contains_key(&dh) {
                self.board_hashs.insert(dh, 0);
            }
        }
        proof {
            assert(self@.counts =~= record_hash_spec(old(self)@, h).counts);
        }
    }
}


/// The state of a game in progress: the board, the side to move and its
/// opponent, how the game ended if it did, the last move played, the move
/// number, and what the draw rules keep track of.
#[derive(Clone, Debug, PartialEq)]
pub struct GameState {
    pub board: Board,
    pub active_player: Color,
    pub opponent: Color,
    pub end: Option<End>,
    pub last_move: Option<(Coord, Coord)>,
    pub turn: u32,
    pub draw: LateDraw,
}

/// What a position is compared by for the repetition rule: the castling
/// rights of both sides, the en-passant square, the side to move and the grid.
pub type PositionKey = (((bool, bool), (bool, bool)), Option<Coord>, Color, [[Cell; 8]; 8]);

/// The byte of a castling flag.
pub open spec fn flag_byte(b: bool) -> u8 {
    if b {
        1
    } else {
        0
    }
}

/// The byte of a side.
pub open spec fn color_byte(c: Color) -> u8 {
    match c {
        Color::White => 0,
        Color::Black => 1,
    }
}

/// The number of a kind of piece.
pub open spec fn piece_number(p: Piece) -> u8 {
    match p {
        Piece::Pawn => 0,
        Piece::Rook => 1,
        Piece::Knight => 2,
        Piece::Bishop => 3,
        Piece::Queen => 4,
        Piece::King => 5,
    }
}

/// The byte of a cell: 0 when empty, else one more than twice the piece
/// number, plus one for Black.
pub open spec fn cell_byte(c: Cell) -> u8 {
    match c {
        Cell::Free => 0,
        Cell::Occupied(p, col) => (1 + 2 * piece_number(p) + color_byte(col)) as u8,
    }
}

/// The three bytes of an en-passant square: a marker, the row and the
/// column (all zero when there is none).
pub open spec fn square_bytes(sq: Option<Coord>) -> Seq<u8> {
    match sq {
        Some(c) => seq![1u8, c.row, c.col],
        None => seq![0u8, 0u8, 0u8],
    }
}

/// The bytes a position key is hashed as: the four castling flags (White's
/// then Black's), the en-passant square, the side to move, and the 64 cells
/// row by row.
pub open spec fn key_bytes(k: PositionKey) -> Seq<u8> {
    seq![flag_byte(k.0.0.0), flag_byte(k.0.0.1), flag_byte(k.0.1.0), flag_byte(k.0.1.1)] + square_bytes(k.1)
        + seq![color_byte(k.2)] + Seq::new(64, |i: int| cell_byte(k.3[i / 8][i % 8]))
}

/// The hash the repetition rule counts a position by: the key's bytes
/// written once into a fresh `DefaultHasher`.
pub open spec fn position_hash(k: PositionKey) -> u64 {
    DefaultHasher::spec_finish(seq![key_bytes(k)])
}

fn flag_byte_of(b: bool) -> (r: u8)
    ensures
        r == flag_byte(b),
{
    if b {
        1
    } else {
        0
    }
}

fn color_byte_of(c: Color) -> (r: u8)
    ensures
        r == color_byte(c),
{
    match c {
        Color::White => 0,
        Color::Black => 1,
    }
}

fn cell_byte_of(c: Cell) -> (r: u8)
    ensures
        r == cell_byte(c),
{
    match c {
        Cell::Free => 0,
        Cell::Occupied(p, col) => {
            let n: u8 = match p {
                Piece::Pawn => 0,
                Piece::Rook => 1,
                Piece::Knight => 2,
                Piece::Bishop => 3,
                Piece::Queen => 4,
                Piece::King => 5,
            };
            1 + 2 * n + color_byte_of(col)
        },
    }
}

/// The bytes of the position key `k` (see [`key_bytes`]).
pub fn position_bytes(k: &PositionKey) -> (v: Vec<u8>)
    ensures
        v@ == key_bytes(*k),
{
    let mut v: Vec<u8> = Vec::new();
    v.push(flag_byte_of(k.0.0.0));
    v.push(flag_byte_of(k.0.0.1));
    v.push(flag_byte_of(k.0.1.0));
    v.push(flag_byte_of(k.0.1.1));
    match k.1 {
        Some(c) => {
            v.push(1);
            v.push(c.row);
            v.push(c.col);
        },
        None => {
            v.push(0);
            v.push(0);
            v.push(0);
        },
    }
    v.push(color_byte_of(k.2));
    let ghost head = v@;
    assert(head == seq![flag_byte(k.0.0.0), flag_byte(k.0.0.1), flag_byte(k.0.1.0), flag_byte(k.0.1.1)]
        + square_bytes(k.1) + seq![color_byte(k.2)]);
    let mut i: usize = 0;
    while i < 64
        invariant
            i <= 64,
            v@ == head + Seq::new(i as nat, |j: int| cell_byte(k.3[j / 8][j % 8])),
        decreases 64 - i,
    {
        let b = cell_byte_of(k.3[i / 8][i % 8]);
        proof {
            assert(head + Seq::new((i + 1) as nat, |j: int| cell_byte(k.3[j / 8][j % 8])) =~= (head + Seq::new(
                i as nat,
                |j: int| cell_byte(k.3[j / 8][j % 8]),
            )).push(b));
        }
        v.push(b);
        i = i + 1;
    }
    assert(v@ =~= key_bytes(*k));
    v
}

/// The color of the board square at `(row, col)`, as the draw rules see it.
pub open spec fn square_color(row: int, col: int) -> Color {
    if (row + col) % 2 == 0 {
        Color::White
    } else {
        Color::Black
    }
}

/// The occupied cells of row `row` among its first `n` columns, from file a
/// on: each as (piece, its color, square color).
pub open spec fn row_pieces(board: Board, row: int, n: int) -> Seq<(Piece, Color, Color)>
    decreases n,
{
    if n <= 0 {
        Seq::empty()
    } else {
        let rest = row_pieces(board, row, n - 1);
        match board.grid[row][n - 1] {
            Cell::Occupied(p, c) => rest.push((p, c, square_color(row, n - 1))),
            Cell::Free => rest,
        }
    }
}

/// The occupied cells of the first `n` rows, row by row.
pub open spec fn board_pieces(board: Board, n: int) -> Seq<(Piece, Color, Color)>
    decreases n,
{
    if n <= 0 {
        Seq::empty()
    } else {
        board_pieces(board, n - 1) + row_pieces(board, n - 1, 8)
    }
}

/// The piece at index `i` of `pieces` is a bishop of `color`.
pub open spec fn is_bishop_of(pieces: Seq<(Piece, Color, Color)>, i: int, color: Color) -> bool {
    pieces[i].0 == Piece::Bishop && pieces[i].1 == color
}

/// Among the first `n` pieces, the one at index `k` is the only bishop of
/// `color`.
pub open spec fn only_bishop_of(pieces: Seq<(Piece, Color, Color)>, n: int, color: Color, k: int) -> bool {
    &&& 0 <= k < n
    &&& is_bishop_of(pieces, k, color)
    &&& forall|j: int| 0 <= j < n && #[trigger] is_bishop_of(pieces, j, color) ==> j == k
}

/// The material situations in which mate is impossible, given the occupied
/// cells: two pieces (the kings); three pieces that are all kings, bishops or
/// knights (a king and a minor piece against a king); four pieces that are
/// all kings or bishops, with exactly one bishop on each side and both
/// bishops on squares of the same color.
pub open spec fn impossible_mate(pieces: Seq<(Piece, Color, Color)>) -> bool {
    ||| pieces.len() == 2
    ||| pieces.len() == 3 && forall|i: int|
        0 <= i < 3 ==> #[trigger] pieces[i].0 == Piece::King || pieces[i].0 == Piece::Bishop
            || pieces[i].0 == Piece::Knight
    ||| pieces.len() == 4 && (forall|i: int|
        0 <= i < 4 ==> #[trigger] pieces[i].0 == Piece::King || pieces[i].0 == Piece::Bishop) && exists|
        w: int,
        b: int,
    |
        only_bishop_of(pieces, 4, Color::White, w) && only_bishop_of(pieces, 4, Color::Black, b)
            && pieces[w].2 == pieces[b].2
}

/// A move from `from` to `to` on `board` moves a pawn or captures a piece.
pub open spec fn resets_fifty_moves(board: Board, from: Coord, to: Coord) -> bool {
    (board.cell(from) matches Cell::Occupied(p, _) && p == Piece::Pawn) || board.cell(to)
        != Cell::Free
}

impl GameState {
    /// A new game: the starting board, White to move, move number one, and no
    /// draw tracked yet.
    pub fn new() -> (g: Self)
        ensures
            forall|r: int, c: int|
                0 <= r < 8 && 0 <= c < 8 ==> g.board.grid[r][c] == initial_cell(r, c),
            g.board.white_castle == (true, true),
            g.board.black_castle == (true, true),
            g.board.en_passant.is_none(),
            g.board.check.is_none(),
            g.active_player == Color::White,
            g.opponent == Color::Black,
            g.end.is_none(),
            g.last_move.is_none(),
            g.turn == 1,
            g.draw@.counts == Map::<u64, usize>::empty(),
            g.draw@.draw_option.is_none(),
            g.draw@.draw_moves_count == 0,
            g.draw@.draw_hash.is_none(),
    {
        GameState {
            board: Board::init_board(),
            active_player: Color::White,
            opponent: Color::Black,
            end: None,
            last_move: None,
            turn: 1,
            draw: LateDraw {
                board_hashs: HashMap::new(),
                draw_option: None,
                draw_moves_count: 0,
                draw_hash: None,
            },
        }
    }

    /// Whether a piece of the side to move stands on `coord`.
    pub fn is_active_player_piece(&mut self, coord: &Coord) -> (b: bool)
        requires
            coord.on_board(),
        ensures
            *final(self) == *old(self),
            b == (old(self).board.cell(*coord) matches Cell::Occupied(_, c) && c
                == old(self).active_player),
    {
        let cell = self.board.get(coord);
        cell.is_color(&self.active_player)
    }

    /// Swaps the side to move and its opponent.
    pub fn switch_players_color(&mut self)
        ensures
            final(self).active_player == old(self).active_player.other(),
            final(self).opponent == old(self).opponent.other(),
            final(self).board == old(self).board,
            final(self).end == old(self).end,
            final(self).last_move == old(self).last_move,
            final(self).turn == old(self).turn,
            final(self).draw == old(self).draw,
    {
        self.active_player = match self.active_player {
            Color::White => Color::Black,
            Color::Black => Color::White,
        };
        self.opponent = match self.opponent {
            Color::White => Color::Black,
            Color::Black => Color::White,
        };
    }

    /// Sets the castling rights `(long, short)` of the side to move.
    pub fn switch_castle(&mut self, long: bool, short: bool)
        ensures
            final(self).board.white_castle == if old(self).active_player == Color::White {
                (long, short)
            } else {
                old(self).board.white_castle
            },
            final(self).board.black_castle == if old(self).active_player == Color::White {
                old(self).board.black_castle
            } else {
                (long, short)
            },
            final(self).board.grid == old(self).board.grid,
            final(self).board.en_passant == old(self).board.en_passant,
            final(self).board.check == old(self).board.check,
            final(self).active_player == old(self).active_player,
            final(self).opponent == old(self).opponent,
            final(self).end == old(self).end,
            final(self).last_move == old(self).last_move,
            final(self).turn == old(self).turn,
            final(self).draw == old(self).draw,
    {
        if self.active_player == Color::White {
            self.board.white_castle = (long, short);
        } else {
            self.board.black_castle = (long, short);
        }
    }

    /// What the position is compared by for the repetition rule: the
    /// castling rights of White and of Black, the en-passant square, the side
    /// to move and the grid.
    pub open spec fn position_key_spec(&self) -> PositionKey {
        ((self.board.white_castle, self.board.black_castle), self.board.en_passant, self.active_player, self.board.grid)
    }

    /// The position's key for the repetition rule (see
    /// [`Self::position_key_spec`]).
    pub fn position_key(&self) -> (k: PositionKey)
        ensures
            k == self.position_key_spec(),
    {
        ((self.board.white_castle, self.board.black_castle), self.board.en_passant, self.active_player, self.board.grid)
    }

    /// Counts one more sighting of the current position for the repetition
    /// rule. The position is summed up by the hash of its key
    /// ([`position_hash`]), and that sighting is recorded as
    /// [`LateDraw::record_hash`] does.
    pub fn add_hash(&mut self)
        requires
            forall|k: u64| #[trigger] old(self).draw@.counts.contains_key(k)
                ==> old(self).draw@.counts[k] < usize::MAX,
        ensures
            final(self).draw@ == record_hash_spec(old(self).draw@, position_hash(old(self).position_key_spec())),
            final(self).board == old(self).board,
            final(self).active_player == old(self).active_player,
            final(self).opponent == old(self).opponent,
            final(self).end == old(self).end,
            final(self).last_move == old(self).last_move,
            final(self).turn == old(self).turn,
    {
        let mut hasher = DefaultHasher::new();
        let state = self.position_key();
        let bytes = position_bytes(&state);
        hasher.write(bytes.as_slice());
        let hash_value = hasher.finish();
        assert(hasher@ =~= seq![key_bytes(state)]);
        assert(count_of(self.draw@.counts, hash_value) < usize::MAX);
        self.draw.record_hash(hash_value);
    }

    /// The fifty-move rule, applied to the move from `from` to `to` before the
    /// board is updated: a pawn move or a capture resets the counter (and
    /// leaves the draw option alone); any other move increments it, and the
    /// fifty-move draw is claimable exactly when it has reached 50.
    pub fn fifty_moves_draw_check(&mut self, from: &Coord, to: &Coord)
        requires
            from.on_board(),
            to.on_board(),
            !resets_fifty_moves(old(self).board, *from, *to) ==> old(self).draw.draw_moves_count
                < u32::MAX,
        ensures
            resets_fifty_moves(old(self).board, *from, *to) ==> final(self).draw.draw_moves_count
                == 0 && final(self).draw.draw_option == old(self).draw.draw_option,
            !resets_fifty_moves(old(self).board, *from, *to) ==> {
                &&& final(self).draw.draw_moves_count == old(self).draw.draw_moves_count + 1
                &&& final(self).draw.draw_option == if final(self).draw.draw_moves_count >= 50 {
                    Some(DrawOption::Available(DrawRule::FiftyMoves))
                } else {
                    None
                }
            },
            final(self).draw.board_hashs@ == old(self).draw.board_hashs@,
            final(self).draw.draw_hash == old(self).draw.draw_hash,
            final(self).board == old(self).board,
            final(self).active_player == old(self).active_player,
            final(self).opponent == old(self).opponent,
            final(self).end == old(self).end,
            final(self).last_move == old(self).last_move,
            final(self).turn == old(self).turn,
    {
        if let Some(p) = self.board.get(from).get_piece() {
            if *p == Piece::Pawn {
                self.draw.draw_moves_count = 0;
                return;
            }
        }
        if !self.board.get(to).is_empty() {
            self.draw.draw_moves_count = 0;
            return;
        }
        self.draw.draw_moves_count = self.draw.draw_moves_count + 1;
        if self.draw.draw_moves_count >= 50 {
            self.draw.draw_option = Some(DrawOption::Available(DrawRule::FiftyMoves));
        } else {
            self.draw.draw_option = None;
        }
    }

    /// The bookkeeping after the board was updated for the move from `from`
    /// to `to`: a rook arriving on file h clears the first castling flag of
    /// the side that moved, one arriving on file a the second; a king clears
    /// both. The move becomes the last move, the move number goes up after a
    /// Black move, and the two sides swap (as [`Self::switch_players_color`]
    /// does).
    pub fn record_move(&mut self, from: Coord, to: Coord)
        requires
            to.on_board(),
            old(self).active_player == Color::Black ==> old(self).turn < u32::MAX,
        ensures
            ({
                let mover = old(self).active_player;
                let before = if mover == Color::White {
                    old(self).board.white_castle
                } else {
                    old(self).board.black_castle
                };
                let after = match old(self).board.cell(to) {
                    Cell::Occupied(Piece::Rook, _) => if to.col == 7 {
                        (false, before.1)
                    } else if to.col == 0 {
                        (before.0, false)
                    } else {
                        before
                    },
                    Cell::Occupied(Piece::King, _) => (false, false),
                    _ => before,
                };
                &&& mover == Color::White ==> final(self).board.white_castle == after
                    && final(self).board.black_castle == old(self).board.black_castle
                &&& mover == Color::Black ==> final(self).board.black_castle == after
                    && final(self).board.white_castle == old(self).board.white_castle
            }),
            final(self).board.grid == old(self).board.grid,
            final(self).board.en_passant == old(self).board.en_passant,
            final(self).board.check == old(self).board.check,
            final(self).last_move == Some((from, to)),
            final(self).turn == if old(self).active_player == Color::Black {
                old(self).turn + 1
            } else {
                old(self).turn as int
            },
            final(self).active_player == old(self).active_player.other(),
            final(self).opponent == old(self).opponent.other(),
            final(self).end == old(self).end,
            final(self).draw == old(self).draw,
    {
        let white = self.active_player == Color::White;
        match self.board.get(&to) {
            Cell::Occupied(Piece::Rook, _) => {
                if to.col == 7 {
                    if white {
                        self.board.white_castle.0 = false;
                    } else {
                        self.board.black_castle.0 = false;
                    }
                } else if to.col == 0 {
                    if white {
                        self.board.white_castle.1 = false;
                    } else {
                        self.board.black_castle.1 = false;
                    }
                }
            },
            Cell::Occupied(Piece::King, _) => {
                if white {
                    self.board.white_castle.0 = false;
                    self.board.white_castle.1 = false;
                } else {
                    self.board.black_castle.0 = false;
                    self.board.black_castle.1 = false;
                }
            },
            _ => {},
        }
        self.last_move = Some((from, to));
        if self.active_player == Color::Black {
            self.turn = self.turn + 1;
        }
        self.switch_players_color();
    }

    /// Every occupied cell of the board, row by row and file by file: the
    /// piece, its color, and the color of its square.
    fn get_pieces_on_board(&mut self) -> (v: Vec<(Piece, Color, Color)>)
        ensures
            *final(self) == *old(self),
            v@ == board_pieces(old(self).board, 8),
    {
        let mut vec: Vec<(Piece, Color, Color)> = Vec::new();
        let mut x: usize = 0;
        while x < 8
            invariant
                x <= 8,
                vec@ == board_pieces(self.board, x as int),
            decreases 8 - x,
        {
            let mut y: usize = 0;
            while y < 8
                invariant
                    x < 8,
                    y <= 8,
                    vec@ == board_pieces(self.board, x as int) + row_pieces(self.board, x as int, y as int),
                decreases 8 - y,
            {
                let cell = self.board.grid[x][y];
                match cell {
                    Cell::Occupied(piece, color) => {
                        let cell_color = if (x + y) % 2 == 0 {
                            Color::White
                        } else {
                            Color::Black
                        };
                        vec.push((piece, color, cell_color));
                    },
                    Cell::Free => {},
                }
                proof {
                    assert(board_pieces(self.board, x as int) + row_pieces(self.board, x as int, y + 1)
                        =~= vec@);
                }
                y = y + 1;
            }
            x = x + 1;
        }
        vec
    }

    /// Whether the material on the board is one of the hard-coded situations
    /// where the draw rules hold mate impossible (see [`impossible_mate`]).
    pub fn impossible_mate_check(&mut self) -> (b: bool)
        ensures
            *final(self) == *old(self),
            b == impossible_mate(board_pieces(old(self).board, 8)),
    {
        let pieces = self.get_pieces_on_board();
        let n = pieces.len();
        if n == 2 {
            return true;
        }
        if n == 3 {
            let mut i: usize = 0;
            while i < 3
                invariant
                    pieces@.len() == 3,
                    pieces@ == board_pieces(old(self).board, 8),
                    *self == *old(self),
                    i <= 3,
                    forall|j: int| 0 <= j < i ==> #[trigger] pieces@[j].0 == Piece::King
                        || pieces@[j].0 == Piece::Bishop || pieces@[j].0 == Piece::Knight,
                decreases 3 - i,
            {
                let piece = pieces[i].0;
                if piece != Piece::King && piece != Piece::Bishop && piece != Piece::Knight {
                    return false;
                }
                i = i + 1;
            }
            return true;
        }
        if n == 4 {
            let mut white_bishop_cell_color: Option<Color> = None;
            let mut black_bishop_cell_color: Option<Color> = None;
            let ghost mut wk: int = 0;
            let ghost mut bk: int = 0;
            let mut i: usize = 0;
            while i < 4
                invariant
                    pieces@.len() == 4,
                    pieces@ == board_pieces(old(self).board, 8),
                    *self == *old(self),
                    i <= 4,
                    forall|j: int| 0 <= j < i ==> #[trigger] pieces@[j].0 == Piece::King
                        || pieces@[j].0 == Piece::Bishop,
                    white_bishop_cell_color is None ==> forall|j: int|
                        0 <= j < i ==> !#[trigger] is_bishop_of(pieces@, j, Color::White),
                    white_bishop_cell_color matches Some(c) ==> only_bishop_of(pieces@, i as int, Color::White, wk)
                        && pieces@[wk].2 == c,
                    black_bishop_cell_color is None ==> forall|j: int|
                        0 <= j < i ==> !#[trigger] is_bishop_of(pieces@, j, Color::Black),
                    black_bishop_cell_color matches Some(c) ==> only_bishop_of(pieces@, i as int, Color::Black, bk)
                        && pieces@[bk].2 == c,
                decreases 4 - i,
            {
                let (piece, color, cell_color) = pieces[i];
                if piece != Piece::King && piece != Piece::Bishop {
                    return false;
                }
                if piece == Piece::Bishop {
                    if color == Color::White {
                        if white_bishop_cell_color.is_some() {
                            assert(is_bishop_of(pieces@, i as int, Color::White));
                            assert(is_bishop_of(pieces@, wk, Color::White));
                            return false;
                        }
                        white_bishop_cell_color = Some(cell_color);
                        proof {
                            wk = i as int;
                        }
                    } else {
                        if black_bishop_cell_color.is_some() {
                            assert(is_bishop_of(pieces@, i as int, Color::Black));
                            assert(is_bishop_of(pieces@, bk, Color::Black));
                            return false;
                        }
                        black_bishop_cell_color = Some(cell_color);
                        proof {
                            bk = i as int;
                        }
                    }
                }
                i = i + 1;
            }
            match (white_bishop_cell_color, black_bishop_cell_color) {
                (Some(w), Some(b)) => {
                    if w == b {
                        assert(only_bishop_of(pieces@, 4, Color::White, wk));
                        assert(only_bishop_of(pieces@, 4, Color::Black, bk));
                        return true;
                    }
                    return false;
                },
                (None, _) => {
                    assert forall|w: int, b: int| !(only_bishop_of(pieces@, 4, Color::White, w)
                        && only_bishop_of(pieces@, 4, Color::Black, b) && pieces@[w].2 == pieces@[b].2) by {
                        if only_bishop_of(pieces@, 4, Color::White, w) {
                            assert(is_bishop_of(pieces@, w, Color::White));
                        }
                    }
                    return false;
                },
                (_, None) => {
                    assert forall|w: int, b: int| !(only_bishop_of(pieces@, 4, Color::White, w)
                        && only_bishop_of(pieces@, 4, Color::Black, b) && pieces@[w].2 == pieces@[b].2) by {
                        if only_bishop_of(pieces@, 4, Color::Black, b) {
                            assert(is_bishop_of(pieces@, b, Color::Black));
                        }
                    }
                    return false;
                },
            }
        }
        false
    }
}

/// Recording a sighting never leaves a position hash counted three times or
/// more: the third sighting of a hash makes it the claimable one, whose count
/// is set back to zero.
pub proof fn lemma_record_keeps_counts_below_three(d: LateDrawView, h: u64)
    requires
        counts_below_three(d.counts),
    ensures
        counts_below_three(record_hash_spec(d, h).counts),
{
}

/// The third sighting of a position hash that is not already the claimable
/// one makes the triple-repetition draw claimable on that hash.
pub proof fn lemma_third_sighting_offers_draw(d: LateDrawView, h: u64)
    requires
        count_of(d.counts, h) == 2,
        d.draw_hash != Some(h),
    ensures
        record_hash_spec(d, h).draw_option == Some(DrawOption::Available(DrawRule::TripleRepetition)),
        record_hash_spec(d, h).draw_hash == Some(h),
        count_of(record_hash_spec(d, h).counts, h) == 0,
{
}

/// A position hash never seen before and not the claimable one, seen three
/// times in a row, makes the triple-repetition draw claimable on it.
pub proof fn lemma_three_sightings_offer_draw(d: LateDrawView, h: u64)
    requires
        !d.counts.contains_key(h),
        d.draw_hash != Some(h),
    ensures
        record_hash_spec(record_hash_spec(record_hash_spec(d, h), h), h).draw_option
            == Some(DrawOption::Available(DrawRule::TripleRepetition)),
        record_hash_spec(record_hash_spec(record_hash_spec(d, h), h), h).draw_hash == Some(h),
{
    let d1 = record_hash_spec(d, h);
    assert(count_of(d1.counts, h) == 1);
    let d2 = record_hash_spec(d1, h);
    assert(count_of(d2.counts, h) == 2);
    lemma_third_sighting_offers_draw(d2, h);
}

/// Two bare kings cannot mate.
pub proof fn lemma_bare_kings_cannot_mate(pieces: Seq<(Piece, Color, Color)>)
    requires
        pieces.len() == 2,
    ensures
        impossible_mate(pieces),
{
}

/// A king with a single bishop or a single knight against a king cannot
/// mate, whatever its colour and square.
pub proof fn lemma_lone_minor_piece_cannot_mate(pieces: Seq<(Piece, Color, Color)>, k: int)
    requires
        pieces.len() == 3,
        0 <= k < 3,
        pieces[k].0 == Piece::Bishop || pieces[k].0 == Piece::Knight,
        forall|i: int| 0 <= i < 3 && i != k ==> #[trigger] pieces[i].0 == Piece::King,
    ensures
        impossible_mate(pieces),
{
    assert forall|i: int| 0 <= i < 3 implies #[trigger] pieces[i].0 == Piece::King || pieces[i].0 == Piece::Bishop
        || pieces[i].0 == Piece::Knight by {
        if i != k {
            assert(pieces[i].0 == Piece::King);
        }
    }
}

/// A king and a bishop each, the bishops on squares of the same colour,
/// cannot mate; on squares of different colours they can.
pub proof fn lemma_bishops_of_each_side(pieces: Seq<(Piece, Color, Color)>, w: int, b: int)
    requires
        pieces.len() == 4,
        0 <= w < 4,
        0 <= b < 4,
        pieces[w].0 == Piece::Bishop && pieces[w].1 == Color::White,
        pieces[b].0 == Piece::Bishop && pieces[b].1 == Color::Black,
        forall|i: int| 0 <= i < 4 && i != w && i != b ==> #[trigger] pieces[i].0 == Piece::King,
    ensures
        impossible_mate(pieces) <==> pieces[w].2 == pieces[b].2,
{
    assert(w != b);
    assert forall|i: int| 0 <= i < 4 implies #[trigger] pieces[i].0 == Piece::King || pieces[i].0 == Piece::Bishop by {
        if i != w && i != b {
            assert(pieces[i].0 == Piece::King);
        }
    }
    assert(only_bishop_of(pieces, 4, Color::White, w)) by {
        assert forall|j: int| 0 <= j < 4 && #[trigger] is_bishop_of(pieces, j, Color::White) implies j == w by {
            if j != w && j != b {
                assert(pieces[j].0 == Piece::King);
            }
        }
    }
    assert(only_bishop_of(pieces, 4, Color::Black, b)) by {
        assert forall|j: int| 0 <= j < 4 && #[trigger] is_bishop_of(pieces, j, Color::Black) implies j == b by {
            if j != w && j != b {
                assert(pieces[j].0 == Piece::King);
            }
        }
    }
    if impossible_mate(pieces) {
        let (w2, b2) = choose|w2: int, b2: int|
            only_bishop_of(pieces, 4, Color::White, w2) && only_bishop_of(pieces, 4, Color::Black, b2)
                && pieces[w2].2 == pieces[b2].2;
        assert(is_bishop_of(pieces, w, Color::White));
        assert(is_bishop_of(pieces, b, Color::Black));
    }
}

/// A rook, a queen or a pawn on a board of three or more pieces leaves mate
/// possible, and so do five pieces or more.
pub proof fn lemma_heavy_material_can_mate(pieces: Seq<(Piece, Color, Color)>, k: int)
    requires
        pieces.len() >= 3,
        0 <= k < pieces.len(),
        pieces[k].0 == Piece::Rook || pieces[k].0 == Piece::Queen || pieces[k].0 == Piece::Pawn
            || pieces.len() >= 5,
    ensures
        !impossible_mate(pieces),
{
    if pieces.len() == 3 || pieces.len() == 4 {
        assert(!(pieces[k].0 == Piece::King || pieces[k].0 == Piece::Bishop || pieces[k].0 == Piece::Knight));
    }
}

/// Threefold repetition: when [`GameState::add_hash`] counts the same
/// position three times in a row (the states between the calls may differ
/// in anything but the position key), starting where that position's hash
/// was never counted and is not the claimable one, the third count makes the
/// triple-repetition draw claimable on that hash.
pub proof fn lemma_threefold_repetition(s0: GameState, s1: GameState, s2: GameState, last: LateDrawView)
    requires
        s1.position_key_spec() == s0.position_key_spec(),
        s2.position_key_spec() == s0.position_key_spec(),
        !s0.draw@.counts.contains_key(position_hash(s0.position_key_spec())),
        s0.draw@.draw_hash != Some(position_hash(s0.position_key_spec())),
        s1.draw@ == record_hash_spec(s0.draw@, position_hash(s0.position_key_spec())),
        s2.draw@ == record_hash_spec(s1.draw@, position_hash(s1.position_key_spec())),
        last == record_hash_spec(s2.draw@, position_hash(s2.position_key_spec())),
    ensures
        last.draw_option == Some(DrawOption::Available(DrawRule::TripleRepetition)),
        last.draw_hash == Some(position_hash(s0.position_key_spec())),
{
    lemma_three_sightings_offer_draw(s0.draw@, position_hash(s0.position_key_spec()));
}

/// Seeing a position hash changes no other hash's count, except that the
/// claimable hash, if it was counted, is counted zero.
pub proof fn lemma_record_leaves_other_counts(d: LateDrawView, h: u64, k: u64)
    requires
        k != h,
    ensures
        count_of(record_hash_spec(d, h).counts, k) == (if record_hash_spec(d, h).draw_hash == Some(k)
            && d.counts.contains_key(k) {
            0
        } else {
            count_of(d.counts, k)
        }),
{
}

} // verus!
