use vstd::prelude::*;

use crate::app_types::End;
use crate::board::{Board, Cell, Color, Coord, Piece};
use crate::moves::{CastleSide, Move};
use crate::san_move::{
    castle_move, disambiguation, file_index, index_of, is_end_mark, is_file, is_rank, lemma_index_of_absent,
    lemma_index_of_found, parse_san_spec, rank_index, trim_end_marks, without_x, SanMove,
};
use crate::text::push_char;

verus! {

/// The decimal digit `d` (0..=9) as a character.
pub open spec fn digit_char(d: int) -> char {
    ('0' as int + d) as char
}

/// The decimal writing of `n`, without leading zeros.
pub open spec fn decimal(n: nat) -> Seq<char>
    decreases n,
{
    if n < 10 {
        seq![digit_char(n as int)]
    } else {
        decimal(n / 10).push(digit_char((n % 10) as int))
    }
}

/// The file letter of column `col` (`a` for 0).
pub open spec fn file_char(col: u8) -> char {
    ('a' as int + col) as char
}

/// The rank digit of row `row` (`1` for 0).
pub open spec fn rank_char(row: u8) -> char {
    ('1' as int + row) as char
}

/// The name of a square, such as `e4`.
pub open spec fn square_text(c: Coord) -> Seq<char> {
    seq![file_char(c.col), rank_char(c.row)]
}

/// The piece standing on a cell, if any.
pub open spec fn piece_on(cell: Cell) -> Option<Piece> {
    match cell {
        Cell::Occupied(p, _) => Some(p),
        Cell::Free => None,
    }
}

/// The letter a move starts with: `p` for a pawn (which is not written), the
/// piece letter for the others, `?` when no piece moved.
pub open spec fn moving_letter(p: Option<Piece>) -> char {
    match p {
        Some(Piece::Pawn) => 'p',
        Some(Piece::Rook) => 'R',
        Some(Piece::Knight) => 'N',
        Some(Piece::Bishop) => 'B',
        Some(Piece::Queen) => 'Q',
        Some(Piece::King) => 'K',
        None => '?',
    }
}

/// The letter of the piece a pawn promoted to (`_` for a king, which no pawn
/// becomes).
pub open spec fn promotion_char(p: Piece) -> char {
    match p {
        Piece::Rook => 'R',
        Piece::Knight => 'N',
        Piece::Bishop => 'B',
        Piece::Queen => 'Q',
        _ => '_',
    }
}

/// What tells the moved piece apart from another `piece` of `board` that
/// could also reach `dest`: for each such legal move among `moves`, in order,
/// the origin's file when it differs, else its rank when it differs, else
/// the whole origin square.
pub open spec fn ambiguity_text(board: Board, moves: Seq<Move>, piece: Piece, origin: Coord, dest: Coord) -> Seq<char>
    decreases moves.len(),
{
    if moves.len() == 0 {
        Seq::empty()
    } else {
        let rest = ambiguity_text(board, moves.drop_last(), piece, origin, dest);
        let m = moves.last();
        if m.dest == dest && piece_on(board.cell(m.origin)) == Some(piece) {
            rest + if origin.col != m.origin.col {
                seq![file_char(origin.col)]
            } else if origin.row != m.origin.row {
                seq![rank_char(origin.row)]
            } else {
                square_text(origin)
            }
        } else {
            rest
        }
    }
}

/// The PGN result of a game that ended with `end`, `active_player` being the
/// side to move after the last move: after a resignation or a time-out the
/// side to move wins, after a mate the side that just moved wins, and a
/// stalemate or a draw is `1/2-1/2`.
pub open spec fn result_text(end: End, active_player: Color) -> Seq<char> {
    match end {
        End::Resign | End::TimeOut => match active_player.other() {
            Color::White => seq!['0', '-', '1'],
            Color::Black => seq!['1', '-', '0'],
        },
        End::Checkmate => match active_player {
            Color::White => seq!['0', '-', '1'],
            Color::Black => seq!['1', '-', '0'],
        },
        End::Pat | End::Draw => seq!['1', '/', '2', '-', '1', '/', '2'],
    }
}

/// What is written after a game-ending move: `#` for a mate, then a space
/// and the result.
pub open spec fn end_text(end: End, active_player: Color) -> Seq<char> {
    (if end == End::Checkmate {
        seq!['#']
    } else {
        Seq::empty()
    }) + seq![' '] + result_text(end, active_player)
}

/// What the SAN writer knows of the game once a move was played: the move
/// text so far, the board after the move, the side now to move, the move
/// number, how the game ended if the move ended it, the length of the move
/// history and the replay position, and the legal moves of the position the
/// move was played from.
pub struct SanRecorder {
    pub history_san: String,
    pub board: Board,
    pub active_player: Color,
    pub turn: u32,
    pub end: Option<End>,
    pub history_len: usize,
    pub replay_index: usize,
    pub prev_legal_moves: Vec<Move>,
}

/// The square two steps of a pawn taken en passant would sit on, seen from
/// `from`, when `from` is on the en-passant rank of the side now to move.
pub open spec fn en_passant_row(active_player: Color) -> int {
    if active_player == Color::White {
        5
    } else {
        4
    }
}

impl SanRecorder {
    /// The legal moves of the previous position all start on the board.
    pub open spec fn well_formed(&self) -> bool {
        forall|i: int|
            0 <= i < self.prev_legal_moves@.len() ==> (#[trigger] self.prev_legal_moves@[i]).origin.on_board()
    }

    /// The disambiguation written for a move of `piece` from `origin` to
    /// `dest` (none at the start of a game or of the replay).
    pub open spec fn disambiguation_text(&self, piece: Piece, origin: Coord, dest: Coord) -> Seq<char> {
        if self.history_len > 0 && self.replay_index > 0 {
            ambiguity_text(self.board, self.prev_legal_moves@, piece, origin, dest)
        } else {
            Seq::empty()
        }
    }

    /// Whether a pawn moving from `from` to `to` took en passant: `from` is on
    /// the en-passant rank and the piece beside the destination changed.
    pub open spec fn en_passant_spec(&self, from: Coord, to: Coord, prev_board: Board) -> bool {
        from.row == en_passant_row(self.active_player) && {
            let row = if self.active_player == Color::White {
                from.row - 1
            } else {
                from.row + 1
            };
            let c = Coord { row: row as u8, col: to.col };
            piece_on(self.board.cell(c)) != piece_on(prev_board.cell(c))
        }
    }

    /// The SAN of a pawn move: the origin file and `x` for a capture, the
    /// destination, and `=` with the new piece for a promotion.
    pub open spec fn pawn_text(&self, from: Coord, to: Coord, prev_board: Board) -> Seq<char> {
        (if prev_board.cell(to) != Cell::Free || self.en_passant_spec(from, to, prev_board) {
            seq![file_char(from.col), 'x']
        } else {
            Seq::empty()
        }) + square_text(to) + match self.board.cell(to) {
            Cell::Occupied(p, _) => if p != Piece::Pawn {
                seq!['=', promotion_char(p)]
            } else {
                Seq::empty()
            },
            Cell::Free => Seq::empty(),
        }
    }

    /// The SAN of the move itself.
    pub open spec fn move_text(&self, from: Coord, to: Coord, prev_board: Board) -> Seq<char> {
        let moved = piece_on(prev_board.cell(from));
        let letter = moving_letter(moved);
        if letter == 'p' {
            self.pawn_text(from, to, prev_board)
        } else if letter == 'K' && (to.col - from.col > 1 || from.col - to.col > 1) {
            if to.col < from.col {
                seq!['O', '-', 'O', '-', 'O']
            } else {
                seq!['O', '-', 'O']
            }
        } else {
            seq![letter] + (match moved {
                Some(p) => if p != Piece::Pawn && p != Piece::King {
                    self.disambiguation_text(p, from, to)
                } else {
                    Seq::empty()
                },
                None => Seq::empty(),
            }) + (if prev_board.cell(to) != Cell::Free {
                seq!['x']
            } else {
                Seq::empty()
            }) + square_text(to)
        }
    }

    /// Everything written for a move: the move number before a White move
    /// (that is, when Black is now to move), the move, the result if the game
    /// ended, `+` for a check, and a space.
    pub open spec fn san_text(&self, from: Coord, to: Coord, prev_board: Board) -> Seq<char> {
        (if self.active_player == Color::Black {
            decimal(self.turn as nat) + seq!['.', ' ']
        } else {
            Seq::empty()
        }) + self.move_text(from, to, prev_board) + (match self.end {
            Some(e) => end_text(e, self.active_player),
            None => Seq::empty(),
        }) + (if self.board.check.is_some() && self.end.is_none() {
            seq!['+']
        } else {
            Seq::empty()
        }) + seq![' ']
    }
}

pub(crate) fn push_chars(s: &mut String, cs: &[char])
    ensures
        final(s)@ == old(s)@ + cs@,
{
    let mut i: usize = 0;
    while i < cs.len()
        invariant
            i <= cs@.len(),
            s@ == old(s)@ + cs@.take(i as int),
        decreases cs@.len() - i,
    {
        push_char(s, cs[i]);
        proof {
            assert(cs@.take(i + 1) =~= cs@.take(i as int).push(cs@[i as int]));
        }
        i = i + 1;
    }
    assert(cs@.take(cs@.len() as int) =~= cs@);
}

pub(crate) fn push_decimal(s: &mut String, n: u64)
    ensures
        final(s)@ == old(s)@ + decimal(n as nat),
    decreases n,
{
    if n >= 10 {
        push_decimal(s, n / 10);
    }
    let d = (n % 10) as u8;
    let c = (48u8 + d) as char;
    push_char(s, c);
    proof {
        assert(c == digit_char((n % 10) as int));
        if n >= 10 {
            assert(decimal(n as nat) == decimal((n / 10) as nat).push(digit_char((n % 10) as int)));
        }
    }
}

fn file_of(col: u8) -> (c: char)
    requires
        col < 8,
    ensures
        c == file_char(col),
{
    (97u8 + col) as char
}

fn rank_of(row: u8) -> (c: char)
    requires
        row < 8,
    ensures
        c == rank_char(row),
{
    (49u8 + row) as char
}


impl SanRecorder {
    /// Writes the SAN of the move from `from` to `to` (see [`Self::san_text`]);
    /// `prev_board` is the board before the move, `self.board` the board
    /// after it.
    pub fn encode_move_to_san(&mut self, from: &Coord, to: &Coord, prev_board: &Board)
        requires
            old(self).well_formed(),
            from.on_board(),
            to.on_board(),
        ensures
            final(self).history_san@ == old(self).history_san@ + old(self).san_text(*from, *to, *prev_board),
            final(self).board == old(self).board,
            final(self).active_player == old(self).active_player,
            final(self).turn == old(self).turn,
            final(self).end == old(self).end,
            final(self).history_len == old(self).history_len,
            final(self).replay_index == old(self).replay_index,
            final(self).prev_legal_moves@ == old(self).prev_legal_moves@,
    {
        if self.active_player == Color::Black {
            push_decimal(&mut self.history_san, self.turn as u64);
            push_chars(&mut self.history_san, &['.', ' ']);
        }
        let ghost after_number = self.history_san@;
        self.write_move(from, to, prev_board);
        let ghost after_move = self.history_san@;
        self.write_ending();
        proof {
            assert(self.history_san@ =~= old(self).history_san@ + old(self).san_text(*from, *to, *prev_board));
        }
    }

    fn write_move(&mut self, from: &Coord, to: &Coord, prev_board: &Board)
        requires
            old(self).well_formed(),
            from.on_board(),
            to.on_board(),
        ensures
            final(self).history_san@ == old(self).history_san@ + old(self).move_text(*from, *to, *prev_board),
            final(self).board == old(self).board,
            final(self).active_player == old(self).active_player,
            final(self).turn == old(self).turn,
            final(self).end == old(self).end,
            final(self).history_len == old(self).history_len,
            final(self).replay_index == old(self).replay_index,
            final(self).prev_legal_moves@ == old(self).prev_legal_moves@,
    {
        let moved: Option<Piece> = match prev_board.get(from) {
            Cell::Occupied(p, _) => Some(*p),
            Cell::Free => None,
        };
        let piece: char = match moved {
            Some(Piece::Pawn) => 'p',
            Some(Piece::Rook) => 'R',
            Some(Piece::Knight) => 'N',
            Some(Piece::Bishop) => 'B',
            Some(Piece::Queen) => 'Q',
            Some(Piece::King) => 'K',
            None => '?',
        };
        if piece == 'p' {
            self.pawn_san(from, to, prev_board);
        } else if piece == 'K' && (to.col as i8 - from.col as i8 > 1 || from.col as i8 - to.col as i8 > 1) {
            if (to.col as i8 - from.col as i8) < 0 {
                push_chars(&mut self.history_san, &['O', '-', 'O', '-', 'O']);
            } else {
                push_chars(&mut self.history_san, &['O', '-', 'O']);
            }
        } else {
            let ghost start = self.history_san@;
            push_char(&mut self.history_san, piece);
            if let Some(p) = moved {
                match p {
                    Piece::Pawn => {},
                    Piece::King => {},
                    _ => self.is_ambiguous_move(&p, from, to),
                }
            }
            if !prev_board.get(to).is_empty() {
                push_char(&mut self.history_san, 'x');
            }
            push_char(&mut self.history_san, file_of(to.col));
            push_char(&mut self.history_san, rank_of(to.row));
            proof {
                assert(self.history_san@ =~= start + old(self).move_text(*from, *to, *prev_board));
            }
        }
    }

    fn write_ending(&mut self)
        ensures
            final(self).history_san@ == old(self).history_san@ + (match old(self).end {
                Some(e) => end_text(e, old(self).active_player),
                None => Seq::empty(),
            }) + (if old(self).board.check.is_some() && old(self).end.is_none() {
                seq!['+']
            } else {
                Seq::empty()
            }) + seq![' '],
            final(self).board == old(self).board,
            final(self).active_player == old(self).active_player,
            final(self).turn == old(self).turn,
            final(self).end == old(self).end,
            final(self).history_len == old(self).history_len,
            final(self).replay_index == old(self).replay_index,
            final(self).prev_legal_moves@ == old(self).prev_legal_moves@,
    {
        if let Some(end) = self.end {
            if end == End::Checkmate {
                push_char(&mut self.history_san, '#');
            }
            push_char(&mut self.history_san, ' ');
            match end {
                End::Resign | End::TimeOut => {
                    match self.active_player {
                        Color::Black => push_chars(&mut self.history_san, &['0', '-', '1']),
                        Color::White => push_chars(&mut self.history_san, &['1', '-', '0']),
                    };
                },
                End::Checkmate => {
                    match self.active_player {
                        Color::White => push_chars(&mut self.history_san, &['0', '-', '1']),
                        Color::Black => push_chars(&mut self.history_san, &['1', '-', '0']),
                    };
                },
                End::Pat | End::Draw => push_chars(&mut self.history_san, &['1', '/', '2', '-', '1', '/', '2']),
            };
        }
        let ghost after_end = self.history_san@;
        if self.board.check.is_some() && self.end.is_none() {
            push_char(&mut self.history_san, '+');
        }
        push_char(&mut self.history_san, ' ');
        proof {
            assert(self.history_san@ =~= old(self).history_san@ + (match old(self).end {
                Some(e) => end_text(e, old(self).active_player),
                None => Seq::empty(),
            }) + (if old(self).board.check.is_some() && old(self).end.is_none() {
                seq!['+']
            } else {
                Seq::empty()
            }) + seq![' ']);
        }
    }

    /// Whether the pawn move from `from` to `to` took en passant (see
    /// [`Self::en_passant_spec`]).
    fn is_en_passant_take(&mut self, from: &Coord, to: &Coord, prev_board: &Board) -> (b: bool)
        requires
            from.on_board(),
            to.on_board(),
        ensures
            *final(self) == *old(self),
            b == old(self).en_passant_spec(*from, *to, *prev_board),
    {
        let row_en_passant: u8 = if self.active_player == Color::White {
            5
        } else {
            4
        };
        let diff: i8 = if self.active_player == Color::White {
            -1
        } else {
            1
        };
        if from.row == row_en_passant {
            let new_row = from.row as i8 + diff;
            let coord = Coord { row: new_row as u8, col: to.col };
            let now: Option<Piece> = match self.board.get(&coord) {
                Cell::Occupied(p, _) => Some(*p),
                Cell::Free => None,
            };
            let before: Option<Piece> = match prev_board.get(&coord) {
                Cell::Occupied(p, _) => Some(*p),
                Cell::Free => None,
            };
            if now != before {
                return true;
            }
        }
        false
    }

    /// Writes the SAN of a pawn move (see [`Self::pawn_text`]).
    fn pawn_san(&mut self, from: &Coord, to: &Coord, prev_board: &Board)
        requires
            from.on_board(),
            to.on_board(),
        ensures
            final(self).history_san@ == old(self).history_san@ + old(self).pawn_text(*from, *to, *prev_board),
            final(self).board == old(self).board,
            final(self).active_player == old(self).active_player,
            final(self).turn == old(self).turn,
            final(self).end == old(self).end,
            final(self).history_len == old(self).history_len,
            final(self).replay_index == old(self).replay_index,
            final(self).prev_legal_moves@ == old(self).prev_legal_moves@,
    {
        if !prev_board.get(to).is_empty() || self.is_en_passant_take(from, to, prev_board) {
            push_char(&mut self.history_san, file_of(from.col));
            push_char(&mut self.history_san, 'x');
        }
        push_char(&mut self.history_san, file_of(to.col));
        push_char(&mut self.history_san, rank_of(to.row));
        if let Cell::Occupied(piece, _) = self.board.get(to) {
            if *piece != Piece::Pawn {
                push_char(&mut self.history_san, '=');
                let p = match piece {
                    Piece::Rook => 'R',
                    Piece::Knight => 'N',
                    Piece::Bishop => 'B',
                    Piece::Queen => 'Q',
                    _ => '_',
                };
                push_char(&mut self.history_san, p);
            }
        }
        proof {
            assert(self.history_san@ =~= old(self).history_san@ + old(self).pawn_text(*from, *to, *prev_board));
        }
    }

    /// Writes what tells a move of `piece` from `origin` to `dest` apart from
    /// the moves of other such pieces to the same square (see
    /// [`Self::disambiguation_text`]).
    pub fn is_ambiguous_move(&mut self, piece: &Piece, origin: &Coord, dest: &Coord)
        requires
            old(self).well_formed(),
            origin.on_board(),
        ensures
            final(self).history_san@ == old(self).history_san@ + old(self).disambiguation_text(*piece, *origin, *dest),
            final(self).board == old(self).board,
            final(self).active_player == old(self).active_player,
            final(self).turn == old(self).turn,
            final(self).end == old(self).end,
            final(self).history_len == old(self).history_len,
            final(self).replay_index == old(self).replay_index,
            final(self).prev_legal_moves@ == old(self).prev_legal_moves@,
    {
        if self.history_len > 0 && self.replay_index > 0 {
            let ghost moves = self.prev_legal_moves@;
            let mut i: usize = 0;
            while i < self.prev_legal_moves.len()
                invariant
                    i <= moves.len(),
                    moves == self.prev_legal_moves@,
                    origin.on_board(),
                    forall|k: int| 0 <= k < moves.len() ==> (#[trigger] moves[k]).origin.on_board(),
                    self.history_san@ == old(self).history_san@ + ambiguity_text(self.board, moves.take(i as int), *piece, *origin, *dest),
                    self.board == old(self).board,
                    self.active_player == old(self).active_player,
                    self.turn == old(self).turn,
                    self.end == old(self).end,
                    self.history_len == old(self).history_len,
                    self.replay_index == old(self).replay_index,
                decreases moves.len() - i,
            {
                let m = self.prev_legal_moves[i];
                proof {
                    assert(moves.take(i + 1).drop_last() =~= moves.take(i as int));
                    assert(moves.take(i + 1).last() == m);
                }
                let ghost before = self.history_san@;
                let same_piece = match self.board.get(&m.origin) {
                    Cell::Occupied(p, _) => *p == *piece,
                    Cell::Free => false,
                };
                if m.dest == *dest && same_piece {
                    if origin.col != m.origin.col {
                        push_char(&mut self.history_san, file_of(origin.col));
                    } else if origin.row != m.origin.row {
                        push_char(&mut self.history_san, rank_of(origin.row));
                    } else {
                        push_char(&mut self.history_san, file_of(origin.col));
                        push_char(&mut self.history_san, rank_of(origin.row));
                    }
                }
                proof {
                    assert(self.history_san@ =~= old(self).history_san@ + ambiguity_text(self.board, moves.take(i + 1), *piece, *origin, *dest));
                }
                i = i + 1;
            }
            proof {
                assert(moves.take(moves.len() as int) =~= moves);
            }
        } else {
            assert(self.history_san@ =~= old(self).history_san@ + Seq::<char>::empty());
        }
    }
}


proof fn lemma_square_chars(c: Coord)
    requires
        c.on_board(),
    ensures
        is_file(file_char(c.col)),
        file_index(file_char(c.col)) == c.col,
        is_rank(rank_char(c.row)),
        rank_index(rank_char(c.row)) == c.row,
        !is_file(rank_char(c.row)),
{
}

proof fn lemma_without_x_concat(a: Seq<char>, b: Seq<char>)
    ensures
        without_x(a + b) == without_x(a) + without_x(b),
    decreases b.len(),
{
    if b.len() == 0 {
        assert(a + b =~= a);
        assert(without_x(a) + without_x(b) =~= without_x(a));
    } else {
        assert((a + b).drop_last() =~= a + b.drop_last());
        assert((a + b).last() == b.last());
        lemma_without_x_concat(a, b.drop_last());
        if b.last() == 'x' {
        } else {
            assert(without_x(a) + without_x(b.drop_last()).push(b.last()) =~= (without_x(a) + without_x(b.drop_last())).push(b.last()));
        }
    }
}

proof fn lemma_without_x_identity(s: Seq<char>)
    requires
        forall|i: int| 0 <= i < s.len() ==> s[i] != 'x',
    ensures
        without_x(s) == s,
    decreases s.len(),
{
    if s.len() > 0 {
        lemma_without_x_identity(s.drop_last());
        assert(s.drop_last().push(s.last()) =~= s);
    }
}

proof fn lemma_ambiguity_chars(board: Board, moves: Seq<Move>, piece: Piece, origin: Coord, dest: Coord)
    ensures
        forall|i: int| 0 <= i < ambiguity_text(board, moves, piece, origin, dest).len() ==>
            #[trigger] ambiguity_text(board, moves, piece, origin, dest)[i] == file_char(origin.col)
            || ambiguity_text(board, moves, piece, origin, dest)[i] == rank_char(origin.row),
    decreases moves.len(),
{
    if moves.len() > 0 {
        lemma_ambiguity_chars(board, moves.drop_last(), piece, origin, dest);
        let rest = ambiguity_text(board, moves.drop_last(), piece, origin, dest);
        let m = moves.last();
        let t = ambiguity_text(board, moves, piece, origin, dest);
        if m.dest == dest && piece_on(board.cell(m.origin)) == Some(piece) {
            let add = if origin.col != m.origin.col {
                seq![file_char(origin.col)]
            } else if origin.row != m.origin.row {
                seq![rank_char(origin.row)]
            } else {
                square_text(origin)
            };
            assert(t == rest + add);
            assert forall|i: int| 0 <= i < t.len() implies #[trigger] t[i] == file_char(origin.col)
                || t[i] == rank_char(origin.row) by {
                if i < rest.len() {
                    assert(t[i] == rest[i]);
                } else {
                    assert(t[i] == add[i - rest.len()]);
                }
            }
        }
    }
}

proof fn lemma_pawn_san_reads_back(rec: SanRecorder, from: Coord, to: Coord, prev_board: Board)
    requires
        from.on_board(),
        to.on_board(),
        !(rec.board.cell(to) matches Cell::Occupied(p, _) && p == Piece::King),
    ensures
        parse_san_spec(rec.pawn_text(from, to, prev_board)) == Some(SanMove {
            piece: Piece::Pawn,
            disambig_col: if prev_board.cell(to) != Cell::Free || rec.en_passant_spec(from, to, prev_board) {
                Some(from.col)
            } else {
                None
            },
            disambig_row: None,
            dest: to,
            promotion: match rec.board.cell(to) {
                Cell::Occupied(p, _) => if p != Piece::Pawn { Some(p) } else { None },
                Cell::Free => None,
            },
            castle: None,
        }),
{
    let t = rec.pawn_text(from, to, prev_board);
    lemma_square_chars(to);
    lemma_square_chars(from);
    let sq = square_text(to);
    let capture = prev_board.cell(to) != Cell::Free || rec.en_passant_spec(from, to, prev_board);
    let pre: Seq<char> = if capture { seq![file_char(from.col), 'x'] } else { Seq::empty() };
    let promo: Seq<char> = match rec.board.cell(to) {
        Cell::Occupied(p, _) => if p != Piece::Pawn { seq!['=', promotion_char(p)] } else { Seq::empty() },
        Cell::Free => Seq::empty(),
    };
    let body = pre + sq;
    assert(t == body + promo);
    assert(trim_end_marks(t) == t) by {
        reveal_with_fuel(trim_end_marks, 2);
        assert(t.len() > 0);
        assert(!is_end_mark(t.last()));
    }
    assert(!(t =~= seq!['O', '-', 'O']) && !(t =~= seq!['0', '-', '0'])) by {
        if t.len() == 3 { assert(t[t.len() - 1] != 'O' && t[t.len() - 1] != '0'); }
    }
    assert(!(t =~= seq!['O', '-', 'O', '-', 'O']) && !(t =~= seq!['0', '-', '0', '-', '0'])) by {
        if t.len() == 5 { assert(t[t.len() - 1] != 'O' && t[t.len() - 1] != '0'); }
    }
    lemma_without_x_concat(pre, sq);
    lemma_without_x_identity(sq);
    if capture {
        assert(without_x(pre) =~= seq![file_char(from.col)]) by {
            reveal_with_fuel(without_x, 3);
            assert(pre.drop_last() =~= seq![file_char(from.col)]);
            assert(seq![file_char(from.col)].drop_last() =~= Seq::<char>::empty());
        }
        assert(disambiguation(seq![file_char(from.col)]) == (Some(from.col), None::<u8>)) by {
            reveal_with_fuel(disambiguation, 2);
            assert(seq![file_char(from.col)].drop_last() =~= Seq::<char>::empty());
        }
    } else {
        assert(without_x(pre) =~= Seq::<char>::empty());
    }
    let wx = without_x(body);
    assert(wx.take(wx.len() - 2) =~= without_x(pre));
    assert(forall|i: int| 0 <= i < body.len() ==> body[i] != '=');
    if promo.len() == 0 {
        lemma_index_of_absent(t, '=');
        assert(t =~= body);
    } else {
        lemma_index_of_found(t, '=', body.len() as int);
        assert(t.take(body.len() as int) =~= body);
    }
}

proof fn lemma_piece_san_reads_back(rec: SanRecorder, from: Coord, to: Coord, prev_board: Board, moved: Piece)
    requires
        from.on_board(),
        to.on_board(),
        moved != Piece::Pawn,
        piece_on(prev_board.cell(from)) == Some(moved),
        !(moved == Piece::King && (to.col - from.col > 1 || from.col - to.col > 1)),
    ensures
        parse_san_spec(rec.move_text(from, to, prev_board)) matches Some(m) && m.piece == moved && m.dest == to
            && m.promotion.is_none() && m.castle.is_none() && (m.disambig_col, m.disambig_row) == disambiguation(
            if moved != Piece::King {
                rec.disambiguation_text(moved, from, to)
            } else {
                Seq::empty()
            },
        ),
{
    let t = rec.move_text(from, to, prev_board);
    lemma_square_chars(to);
    lemma_square_chars(from);
    let sq = square_text(to);
    let letter = moving_letter(Some(moved));
    let d: Seq<char> = if moved != Piece::King {
        rec.disambiguation_text(moved, from, to)
    } else {
        Seq::empty()
    };
    let x: Seq<char> = if prev_board.cell(to) != Cell::Free { seq!['x'] } else { Seq::empty() };
    assert(t == seq![letter] + d + x + sq);
    lemma_ambiguity_chars(rec.board, rec.prev_legal_moves@, moved, from, to);
    assert(forall|i: int| 0 <= i < d.len() ==> d[i] == file_char(from.col) || d[i] == rank_char(from.row));
    let rest = d + x + sq;
    assert(t.drop_first() =~= rest);
    assert(trim_end_marks(t) == t) by {
        reveal_with_fuel(trim_end_marks, 2);
        assert(t.len() > 0);
        assert(t.last() == rank_char(to.row));
    }
    assert(!(t =~= seq!['O', '-', 'O']) && !(t =~= seq!['0', '-', '0']) && !(t =~= seq!['O', '-', 'O', '-', 'O'])
        && !(t =~= seq!['0', '-', '0', '-', '0'])) by {
        assert(t[0] == letter);
    }
    assert forall|i: int| 0 <= i < t.len() implies t[i] != '=' by {
        if i == 0 {
        } else if i < 1 + d.len() {
            assert(t[i] == d[i - 1]);
        } else if i < 1 + d.len() + x.len() {
            assert(t[i] == x[i - 1 - d.len()]);
        } else {
            assert(t[i] == sq[i - 1 - d.len() - x.len()]);
        }
    }
    lemma_index_of_absent(t, '=');
    lemma_without_x_concat(d + x, sq);
    lemma_without_x_concat(d, x);
    lemma_without_x_identity(sq);
    lemma_without_x_identity(d);
    assert(without_x(x) =~= Seq::<char>::empty()) by {
        reveal_with_fuel(without_x, 2);
        if x.len() > 0 {
            assert(x.drop_last() =~= Seq::<char>::empty());
        }
    }
    assert(without_x(rest) =~= d + sq);
    assert((d + sq).take(d.len() as int) =~= d);
}

/// Reading back the SAN written for a move recovers it. A pawn move reads as
/// a pawn move to the same square, with its origin file when it captured and
/// the piece it promoted to; castling reads as castling to the same side; any
/// other move reads as a move of the same piece to the same square. (A pawn
/// turned into a king is written with `_`, which does not read back, so it is
/// left out.)
pub proof fn lemma_san_reads_back(rec: SanRecorder, from: Coord, to: Coord, prev_board: Board)
    requires
        from.on_board(),
        to.on_board(),
        prev_board.cell(from) != Cell::Free,
        !(rec.board.cell(to) matches Cell::Occupied(p, _) && p == Piece::King && piece_on(prev_board.cell(from))
            == Some(Piece::Pawn)),
    ensures
        ({
            let moved = piece_on(prev_board.cell(from))->0;
            let t = rec.move_text(from, to, prev_board);
            &&& moved == Piece::Pawn ==> parse_san_spec(t) == Some(SanMove {
                piece: Piece::Pawn,
                disambig_col: if prev_board.cell(to) != Cell::Free || rec.en_passant_spec(from, to, prev_board) {
                    Some(from.col)
                } else {
                    None
                },
                disambig_row: None,
                dest: to,
                promotion: match rec.board.cell(to) {
                    Cell::Occupied(p, _) => if p != Piece::Pawn { Some(p) } else { None },
                    Cell::Free => None,
                },
                castle: None,
            })
            &&& moved == Piece::King && (to.col - from.col > 1 || from.col - to.col > 1) ==> parse_san_spec(t) == Some(
                castle_move(if to.col < from.col { CastleSide::Left } else { CastleSide::Right }))
            &&& moved != Piece::Pawn && !(moved == Piece::King && (to.col - from.col > 1 || from.col - to.col > 1))
                ==> (parse_san_spec(t) matches Some(m) && m.piece == moved && m.dest == to && m.promotion.is_none()
                && m.castle.is_none())
        }),
{
    let moved = piece_on(prev_board.cell(from))->0;
    if moved == Piece::Pawn {
        lemma_pawn_san_reads_back(rec, from, to, prev_board);
    } else if moved == Piece::King && (to.col - from.col > 1 || from.col - to.col > 1) {
    } else {
        lemma_piece_san_reads_back(rec, from, to, prev_board, moved);
    }
}

proof fn lemma_own_disambiguation(d: Seq<char>, col: u8, row: u8)
    requires
        col < 8,
        row < 8,
        forall|i: int| 0 <= i < d.len() ==> #[trigger] d[i] == file_char(col) || d[i] == rank_char(row),
    ensures
        disambiguation(d) == (
            if d.contains(file_char(col)) {
                Some(col)
            } else {
                None
            },
            if d.contains(rank_char(row)) {
                Some(row)
            } else {
                None
            },
        ),
    decreases d.len(),
{
    if d.len() > 0 {
        let init = d.drop_last();
        assert forall|i: int| 0 <= i < init.len() implies #[trigger] init[i] == file_char(col) || init[i]
            == rank_char(row) by {
            assert(init[i] == d[i]);
        }
        lemma_own_disambiguation(init, col, row);
        assert(d[d.len() - 1] == d.last());
        assert forall|c: char| d.contains(c) <==> init.contains(c) || d.last() == c by {
            if d.contains(c) {
                let i = choose|i: int| 0 <= i < d.len() && d[i] == c;
                if i < d.len() - 1 {
                    assert(init[i] == c);
                }
            }
            if init.contains(c) {
                let i = choose|i: int| 0 <= i < init.len() && init[i] == c;
                assert(d[i] == c);
            }
        }
    } else {
        assert(!d.contains(file_char(col)));
        assert(!d.contains(rank_char(row)));
    }
}

proof fn lemma_rival_written(board: Board, moves: Seq<Move>, piece: Piece, origin: Coord, dest: Coord, k: int)
    requires
        0 <= k < moves.len(),
        moves[k].dest == dest,
        piece_on(board.cell(moves[k].origin)) == Some(piece),
        moves[k].origin != origin,
    ensures
        moves[k].origin.col != origin.col ==> ambiguity_text(board, moves, piece, origin, dest).contains(
            file_char(origin.col),
        ),
        moves[k].origin.col == origin.col ==> ambiguity_text(board, moves, piece, origin, dest).contains(
            rank_char(origin.row),
        ),
    decreases moves.len(),
{
    let rest = ambiguity_text(board, moves.drop_last(), piece, origin, dest);
    let t = ambiguity_text(board, moves, piece, origin, dest);
    let m = moves.last();
    if k < moves.len() - 1 {
        assert(moves.drop_last()[k] == moves[k]);
        lemma_rival_written(board, moves.drop_last(), piece, origin, dest, k);
        if m.dest == dest && piece_on(board.cell(m.origin)) == Some(piece) {
            let add = if origin.col != m.origin.col {
                seq![file_char(origin.col)]
            } else if origin.row != m.origin.row {
                seq![rank_char(origin.row)]
            } else {
                square_text(origin)
            };
            assert(t == rest + add);
            assert forall|c: char| rest.contains(c) implies t.contains(c) by {
                let i = choose|i: int| 0 <= i < rest.len() && rest[i] == c;
                assert(t[i] == rest[i]);
            }
        }
    } else {
        assert(m == moves[k]);
        let add = if origin.col != m.origin.col {
            seq![file_char(origin.col)]
        } else if origin.row != m.origin.row {
            seq![rank_char(origin.row)]
        } else {
            square_text(origin)
        };
        assert(t == rest + add);
        assert(t[rest.len() as int] == add[0]);
    }
}

/// The SAN written for a move of a piece other than a pawn or a king tells
/// the piece apart from every other piece of its kind that could go to the
/// same square: read back, it names the moving piece and the destination;
/// any file or rank it names is the origin's; and for each other piece of the
/// kind standing on the origin of a legal move of the previous position to
/// the destination, it names the origin's file when the two files differ,
/// and else the origin's rank. (No disambiguation is written at the start of
/// a game or of a replay.)
pub proof fn lemma_san_disambiguates(rec: SanRecorder, from: Coord, to: Coord, prev_board: Board)
    requires
        from.on_board(),
        to.on_board(),
        prev_board.cell(from) matches Cell::Occupied(p, _) && p != Piece::Pawn && p != Piece::King,
        rec.history_len > 0,
        rec.replay_index > 0,
    ensures
        ({
            let moved = piece_on(prev_board.cell(from))->0;
            let moves = rec.prev_legal_moves@;
            parse_san_spec(rec.move_text(from, to, prev_board)) matches Some(m) && {
                &&& m.piece == moved
                &&& m.dest == to
                &&& (m.disambig_col matches Some(c) ==> c == from.col)
                &&& (m.disambig_row matches Some(r) ==> r == from.row)
                &&& forall|k: int|
                    0 <= k < moves.len() && (#[trigger] moves[k]).dest == to && piece_on(
                        rec.board.cell(moves[k].origin),
                    ) == Some(moved) && moves[k].origin != from ==> {
                        &&& moves[k].origin.col != from.col ==> m.disambig_col == Some(from.col)
                        &&& moves[k].origin.col == from.col ==> m.disambig_row == Some(from.row)
                    }
            }
        }),
{
    let moved = piece_on(prev_board.cell(from))->0;
    let moves = rec.prev_legal_moves@;
    lemma_piece_san_reads_back(rec, from, to, prev_board, moved);
    let d = ambiguity_text(rec.board, moves, moved, from, to);
    assert(rec.disambiguation_text(moved, from, to) == d);
    lemma_ambiguity_chars(rec.board, moves, moved, from, to);
    lemma_own_disambiguation(d, from.col, from.row);
    assert forall|k: int|
        0 <= k < moves.len() && (#[trigger] moves[k]).dest == to && piece_on(rec.board.cell(moves[k].origin))
            == Some(moved) && moves[k].origin != from implies {
        &&& moves[k].origin.col != from.col ==> d.contains(file_char(from.col))
        &&& moves[k].origin.col == from.col ==> d.contains(rank_char(from.row))
    } by {
        lemma_rival_written(rec.board, moves, moved, from, to, k);
    }
}

} // verus!
