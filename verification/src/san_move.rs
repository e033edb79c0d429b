use vstd::prelude::*;

use crate::board::{Board, Cell, Coord, Piece};
use crate::moves::{CastleSide, Move, MoveType};
use crate::text::chars_of;

verus! {

/// A move as written in standard algebraic notation: the moving piece, the
/// file and rank given to tell it apart from another piece, its destination,
/// the piece it promotes to, and the castling side for a castling move.
#[derive(Clone, Copy, Debug, PartialEq, Eq, Structural)]
pub struct SanMove {
    pub piece: Piece,
    pub disambig_col: Option<u8>,
    pub disambig_row: Option<u8>,
    pub dest: Coord,
    pub promotion: Option<Piece>,
    pub castle: Option<CastleSide>,
}

/// A check, mate or annotation mark that may end a SAN token.
pub open spec fn is_end_mark(c: char) -> bool {
    c == '+' || c == '#' || c == '!' || c == '?'
}

/// `s` without its trailing check, mate and annotation marks.
pub open spec fn trim_end_marks(s: Seq<char>) -> Seq<char>
    decreases s.len(),
{
    if s.len() > 0 && is_end_mark(s.last()) {
        trim_end_marks(s.drop_last())
    } else {
        s
    }
}

/// The index of the first `c` in `s`, or -1 when there is none.
pub open spec fn index_of(s: Seq<char>, c: char) -> int
    decreases s.len(),
{
    if s.len() == 0 {
        -1
    } else if s[0] == c {
        0
    } else {
        let r = index_of(s.drop_first(), c);
        if r < 0 {
            -1
        } else {
            r + 1
        }
    }
}

/// The piece a SAN piece letter names (`N`, `B`, `R`, `Q`, `K`).
pub open spec fn piece_letter(c: char) -> Option<Piece> {
    if c == 'N' {
        Some(Piece::Knight)
    } else if c == 'B' {
        Some(Piece::Bishop)
    } else if c == 'R' {
        Some(Piece::Rook)
    } else if c == 'Q' {
        Some(Piece::Queen)
    } else if c == 'K' {
        Some(Piece::King)
    } else {
        None
    }
}

/// The piece a promotion letter names (`Q`, `R`, `B`, `N`).
pub open spec fn promotion_letter(c: char) -> Option<Piece> {
    if c == 'Q' {
        Some(Piece::Queen)
    } else if c == 'R' {
        Some(Piece::Rook)
    } else if c == 'B' {
        Some(Piece::Bishop)
    } else if c == 'N' {
        Some(Piece::Knight)
    } else {
        None
    }
}

/// `s` without its `'x'` capture marks.
pub open spec fn without_x(s: Seq<char>) -> Seq<char>
    decreases s.len(),
{
    if s.len() == 0 {
        s
    } else if s.last() == 'x' {
        without_x(s.drop_last())
    } else {
        without_x(s.drop_last()).push(s.last())
    }
}

/// A file letter `a`..`h`.
pub open spec fn is_file(c: char) -> bool {
    'a' <= c <= 'h'
}

/// A rank digit `1`..`8`.
pub open spec fn is_rank(c: char) -> bool {
    '1' <= c <= '8'
}

/// The file index of a file letter (`a` is 0).
pub open spec fn file_index(c: char) -> u8 {
    (c as int - 'a' as int) as u8
}

/// The rank index of a rank digit (`1` is 0).
pub open spec fn rank_index(c: char) -> u8 {
    (c as int - '1' as int) as u8
}

/// The disambiguation read from the characters before the destination
/// square: the last file letter and the last rank digit among them.
pub open spec fn disambiguation(s: Seq<char>) -> (Option<u8>, Option<u8>)
    decreases s.len(),
{
    if s.len() == 0 {
        (None, None)
    } else {
        let (col, row) = disambiguation(s.drop_last());
        let c = s.last();
        if is_file(c) {
            (Some(file_index(c)), row)
        } else if is_rank(c) {
            (col, Some(rank_index(c)))
        } else {
            (col, row)
        }
    }
}

/// The castling move a SAN token stands for.
pub open spec fn castle_move(side: CastleSide) -> SanMove {
    SanMove {
        piece: Piece::King,
        disambig_col: None,
        disambig_row: None,
        dest: Coord { row: 0, col: 0 },
        promotion: None,
        castle: Some(side),
    }
}

/// The non-castling move read from `body` (the token without its marks and
/// promotion suffix), with `promotion`.
pub open spec fn parse_body(body: Seq<char>, promotion: Option<Piece>) -> Option<SanMove> {
    if body.len() == 0 {
        None
    } else {
        let piece = match piece_letter(body[0]) {
            Some(p) => p,
            None => Piece::Pawn,
        };
        let rest = match piece_letter(body[0]) {
            Some(_) => body.drop_first(),
            None => body,
        };
        let sq = without_x(rest);
        let n = sq.len() as int;
        if n < 2 {
            None
        } else if !is_file(sq[n - 2]) || !is_rank(sq[n - 1]) {
            None
        } else {
            let (col, row) = disambiguation(sq.take(n - 2));
            Some(
                SanMove {
                    piece,
                    disambig_col: col,
                    disambig_row: row,
                    dest: Coord { col: file_index(sq[n - 2]), row: rank_index(sq[n - 1]) },
                    promotion,
                    castle: None,
                },
            )
        }
    }
}

/// The move a SAN token stands for, if it is readable: marks at the end are
/// ignored; `O-O`/`0-0` and `O-O-O`/`0-0-0` are castling; a `=` must be
/// followed by `Q`, `R`, `B` or `N`; an optional piece letter is followed by
/// disambiguation, capture marks and a destination square.
pub open spec fn parse_san_spec(token: Seq<char>) -> Option<SanMove> {
    let core = trim_end_marks(token);
    if core.len() == 0 {
        None
    } else if core == seq!['O', '-', 'O'] || core == seq!['0', '-', '0'] {
        Some(castle_move(CastleSide::Right))
    } else if core == seq!['O', '-', 'O', '-', 'O'] || core == seq!['0', '-', '0', '-', '0'] {
        Some(castle_move(CastleSide::Left))
    } else {
        let idx = index_of(core, '=');
        if idx < 0 {
            parse_body(core, None)
        } else if idx + 1 >= core.len() {
            None
        } else {
            match promotion_letter(core[idx + 1]) {
                Some(p) => parse_body(core.take(idx), Some(p)),
                None => None,
            }
        }
    }
}

pub(crate) proof fn lemma_index_of_found(s: Seq<char>, c: char, i: int)
    requires
        0 <= i < s.len(),
        s[i] == c,
        forall|j: int| 0 <= j < i ==> s[j] != c,
    ensures
        index_of(s, c) == i,
    decreases i,
{
    if i > 0 {
        lemma_index_of_found(s.drop_first(), c, i - 1);
    }
}

pub(crate) proof fn lemma_index_of_absent(s: Seq<char>, c: char)
    requires
        forall|j: int| 0 <= j < s.len() ==> s[j] != c,
    ensures
        index_of(s, c) == -1,
    decreases s.len(),
{
    if s.len() > 0 {
        lemma_index_of_absent(s.drop_first(), c);
    }
}

fn file_or_rank_value(c: char) -> (v: u8)
    requires
        is_file(c) || is_rank(c),
    ensures
        is_file(c) ==> v == file_index(c),
        !is_file(c) ==> v == rank_index(c),
{
    let code = c as u32;
    if 'a' <= c && c <= 'h' {
        (code - 97) as u8
    } else {
        (code - 49) as u8
    }
}

fn parse_body_exec(body: &Vec<char>, end: usize, promotion: Option<Piece>) -> (r: Option<SanMove>)
    requires
        end <= body@.len(),
    ensures
        r == parse_body(body@.take(end as int), promotion),
{
    let ghost b = body@.take(end as int);
    if end == 0 {
        return None;
    }
    let first = body[0];
    let (piece, start): (Piece, usize) = if first == 'N' {
        (Piece::Knight, 1)
    } else if first == 'B' {
        (Piece::Bishop, 1)
    } else if first == 'R' {
        (Piece::Rook, 1)
    } else if first == 'Q' {
        (Piece::Queen, 1)
    } else if first == 'K' {
        (Piece::King, 1)
    } else {
        (Piece::Pawn, 0)
    };
    let ghost rest = b.skip(start as int);
    proof {
        if start == 1 {
            assert(rest =~= b.drop_first());
        } else {
            assert(rest =~= b);
        }
    }
    let mut sq: Vec<char> = Vec::new();
    let mut i: usize = start;
    while i < end
        invariant
            start <= i <= end,
            end <= body@.len(),
            b == body@.take(end as int),
            rest == b.skip(start as int),
            sq@ == without_x(b.subrange(start as int, i as int)),
        decreases end - i,
    {
        let c = body[i];
        proof {
            assert(b.subrange(start as int, i + 1).drop_last() =~= b.subrange(start as int, i as int));
        }
        if c != 'x' {
            sq.push(c);
        }
        i = i + 1;
    }
    proof {
        assert(b.subrange(start as int, end as int) =~= rest);
    }
    let n = sq.len();
    if n < 2 {
        return None;
    }
    let dest_file = sq[n - 2];
    let dest_rank = sq[n - 1];
    if !('a' <= dest_file && dest_file <= 'h') {
        return None;
    }
    if !('1' <= dest_rank && dest_rank <= '8') {
        return None;
    }
    let dest = Coord { col: file_or_rank_value(dest_file), row: file_or_rank_value(dest_rank) };
    let mut disambig_col: Option<u8> = None;
    let mut disambig_row: Option<u8> = None;
    let mut j: usize = 0;
    while j < n - 2
        invariant
            n == sq@.len(),
            n >= 2,
            j <= n - 2,
            (disambig_col, disambig_row) == disambiguation(sq@.take(j as int)),
        decreases n - 2 - j,
    {
        let c = sq[j];
        proof {
            assert(sq@.take(j + 1).drop_last() =~= sq@.take(j as int));
        }
        if 'a' <= c && c <= 'h' {
            disambig_col = Some(file_or_rank_value(c));
        } else if '1' <= c && c <= '8' {
            disambig_row = Some(file_or_rank_value(c));
        }
        j = j + 1;
    }
    Some(SanMove { piece, disambig_col, disambig_row, dest, promotion, castle: None })
}

/// The length of `t` without its trailing check and annotation marks.
pub(crate) fn core_end(t: &Vec<char>) -> (end: usize)
    ensures
        end <= t@.len(),
        trim_end_marks(t@) == t@.take(end as int),
{
    let mut end: usize = t.len();
    assert(t@.take(t@.len() as int) =~= t@);
    while end > 0 && (t[end - 1] == '+' || t[end - 1] == '#' || t[end - 1] == '!' || t[end - 1]
        == '?')
        invariant
            end <= t@.len(),
            trim_end_marks(t@) == trim_end_marks(t@.take(end as int)),
        decreases end,
    {
        proof {
            assert(t@.take(end as int).drop_last() =~= t@.take(end - 1));
        }
        end = end - 1;
    }
    end
}

pub(crate) fn matches_word(v: &Vec<char>, n: usize, w: &[char]) -> (b: bool)
    requires
        n <= v@.len(),
    ensures
        b == (v@.take(n as int) == w@),
{
    if n != w.len() {
        return false;
    }
    let mut i: usize = 0;
    while i < n
        invariant
            n == w@.len(),
            n <= v@.len(),
            i <= n,
            forall|k: int| 0 <= k < i ==> v@[k] == w@[k],
        decreases n - i,
    {
        if v[i] != w[i] {
            assert(v@.take(n as int)[i as int] != w@[i as int]);
            return false;
        }
        i = i + 1;
    }
    assert(v@.take(n as int) =~= w@);
    true
}

/// Reads a SAN move token (see [`parse_san_spec`]); `None` when the token is
/// not a readable move.
pub fn parse_san_token(token: &str) -> (r: Option<SanMove>)
    ensures
        r == parse_san_spec(token@),
{
    let t = chars_of(token);
    let end = core_end(&t);
    let ghost core = t@.take(end as int);
    assert(trim_end_marks(t@) == core);
    if end == 0 {
        return None;
    }
    if matches_word(&t, end, &['O', '-', 'O']) || matches_word(&t, end, &['0', '-', '0']) {
        return Some(
            SanMove {
                piece: Piece::King,
                disambig_col: None,
                disambig_row: None,
                dest: Coord { row: 0, col: 0 },
                promotion: None,
                castle: Some(CastleSide::Right),
            },
        );
    }
    if matches_word(&t, end, &['O', '-', 'O', '-', 'O']) || matches_word(
        &t,
        end,
        &['0', '-', '0', '-', '0'],
    ) {
        return Some(
            SanMove {
                piece: Piece::King,
                disambig_col: None,
                disambig_row: None,
                dest: Coord { row: 0, col: 0 },
                promotion: None,
                castle: Some(CastleSide::Left),
            },
        );
    }
    let mut idx: usize = 0;
    while idx < end && t[idx] != '='
        invariant
            idx <= end,
            end <= t@.len(),
            core == t@.take(end as int),
            forall|j: int| 0 <= j < idx ==> core[j] != '=',
        decreases end - idx,
    {
        idx = idx + 1;
    }
    if idx == end {
        proof {
            lemma_index_of_absent(core, '=');
        }
        return parse_body_exec(&t, end, None);
    }
    proof {
        lemma_index_of_found(core, '=', idx as int);
    }
    if idx + 1 >= end {
        return None;
    }
    let p = t[idx + 1];
    let promo = if p == 'Q' {
        Piece::Queen
    } else if p == 'R' {
        Piece::Rook
    } else if p == 'B' {
        Piece::Bishop
    } else if p == 'N' {
        Piece::Knight
    } else {
        return None;
    };
    proof {
        assert(core.take(idx as int) =~= t@.take(idx as int));
    }
    parse_body_exec(&t, idx, Some(promo))
}


/// `m` is a legal move the non-castling SAN move `san` may stand for on
/// `board`: same destination, the named piece on its origin, origin file and
/// rank as disambiguated, and a promotion exactly when `san` promotes, to the
/// same piece.
pub open spec fn is_candidate(board: Board, m: Move, san: SanMove) -> bool {
    &&& m.dest == san.dest
    &&& board.cell(m.origin) matches Cell::Occupied(p, _) && p == san.piece
    &&& (san.disambig_col matches Some(c) ==> m.origin.col == c)
    &&& (san.disambig_row matches Some(r) ==> m.origin.row == r)
    &&& match san.promotion {
        Some(p) => m.move_type == MoveType::Promotion(p),
        None => !(m.move_type is Promotion),
    }
}

/// `r` is what resolving the SAN move `san` among the legal moves `moves`
/// of `board` gives: for castling, the first legal castling move to that side
/// (none when there is none); for any other move, the one legal move `san`
/// may stand for, and none when no legal move or more than one fits.
pub open spec fn resolves_to(board: Board, moves: Seq<Move>, san: SanMove, r: Option<(Coord, Coord)>) -> bool {
    &&& san.castle matches Some(side) ==> match r {
        Some(od) => exists|i: int|
            0 <= i < moves.len() && #[trigger] moves[i].move_type == MoveType::Castle(side)
                && (forall|j: int| 0 <= j < i ==> moves[j].move_type != MoveType::Castle(side))
                && od == (moves[i].origin, moves[i].dest),
        None => forall|i: int| 0 <= i < moves.len() ==> #[trigger] moves[i].move_type != MoveType::Castle(side),
    }
    &&& san.castle is None ==> match r {
        Some(od) => exists|i: int|
            0 <= i < moves.len() && #[trigger] is_candidate(board, moves[i], san)
                && (forall|j: int| 0 <= j < moves.len() && j != i ==> !is_candidate(board, moves[j], san))
                && od == (moves[i].origin, moves[i].dest),
        None => (forall|i: int| 0 <= i < moves.len() ==> !#[trigger] is_candidate(board, moves[i], san))
            || exists|i: int, j: int| 0 <= i < j < moves.len() && #[trigger] is_candidate(board, moves[i], san)
                && #[trigger] is_candidate(board, moves[j], san),
    }
}

/// Finds the legal move a SAN move stands for. A castling move is the first
/// legal castling move to its side; any other move must match exactly one
/// legal move (see [`is_candidate`]), else it is illegal or ambiguous and
/// `None` is returned (see [`resolves_to`]).
pub fn resolve_move(board: &Board, legals_moves: &Vec<Move>, san: &SanMove) -> (r: Option<(Coord, Coord)>)
    requires
        forall|i: int| 0 <= i < legals_moves@.len() ==> (#[trigger] legals_moves@[i]).origin.on_board(),
    ensures
        resolves_to(*board, legals_moves@, *san, r),
{
    if let Some(side) = san.castle {
        let mut i: usize = 0;
        while i < legals_moves.len()
            invariant
                san.castle == Some(side),
                i <= legals_moves@.len(),
                forall|j: int| 0 <= j < i ==> legals_moves@[j].move_type != MoveType::Castle(side),
            decreases legals_moves@.len() - i,
        {
            let m = legals_moves[i];
            if m.move_type == MoveType::Castle(side) {
                assert(legals_moves@[i as int].move_type == MoveType::Castle(side));
                return Some((m.origin, m.dest));
            }
            i = i + 1;
        }
        return None;
    }
    let mut found: Option<usize> = None;
    let mut i: usize = 0;
    while i < legals_moves.len()
        invariant
            san.castle is None,
            i <= legals_moves@.len(),
            forall|k: int| 0 <= k < legals_moves@.len() ==> (#[trigger] legals_moves@[k]).origin.on_board(),
            match found {
                Some(f) => f < i && is_candidate(*board, legals_moves@[f as int], *san) && forall|j: int|
                    0 <= j < i && j != f ==> !#[trigger] is_candidate(*board, legals_moves@[j], *san),
                None => forall|j: int| 0 <= j < i ==> !#[trigger] is_candidate(*board, legals_moves@[j], *san),
            },
        decreases legals_moves@.len() - i,
    {
        let m = legals_moves[i];
        let promotion_ok = match san.promotion {
            Some(p) => m.move_type == MoveType::Promotion(p),
            None => match m.move_type {
                MoveType::Promotion(_) => false,
                _ => true,
            },
        };
        let candidate = m.dest == san.dest && board.get(&m.origin).get_piece() == Some(&san.piece)
            && match san.disambig_col {
            Some(c) => m.origin.col == c,
            None => true,
        } && match san.disambig_row {
            Some(r) => m.origin.row == r,
            None => true,
        } && promotion_ok;
        assert(candidate == is_candidate(*board, m, *san));
        if candidate {
            match found {
                Some(f) => {
                    assert(is_candidate(*board, legals_moves@[f as int], *san));
                    assert(is_candidate(*board, legals_moves@[i as int], *san));
                    return None;
                },
                None => {
                    found = Some(i);
                },
            }
        }
        i = i + 1;
    }
    match found {
        Some(f) => {
            assert(is_candidate(*board, legals_moves@[f as int], *san));
            Some((legals_moves[f].origin, legals_moves[f].dest))
        },
        None => None,
    }
}

/// A file or rank given in a SAN move rules out every legal move whose
/// origin is on another file or rank, and so do a destination, a piece or a
/// promotion that differ from the move's.
pub proof fn lemma_disambiguation_rules_out(board: Board, m: Move, san: SanMove)
    requires
        ({
            ||| (san.disambig_col matches Some(c) && m.origin.col != c)
            ||| (san.disambig_row matches Some(r) && m.origin.row != r)
            ||| m.dest != san.dest
            ||| !(board.cell(m.origin) matches Cell::Occupied(p, _) && p == san.piece)
            ||| (san.promotion.is_none() && m.move_type is Promotion)
            ||| (san.promotion matches Some(p) && m.move_type != MoveType::Promotion(p))
        }),
    ensures
        !is_candidate(board, m, san),
{
}

/// A SAN move that names a legal move's piece, origin file and rank and
/// destination, with no promotion, resolves to exactly that move, provided no
/// other legal move goes between the same two squares without promoting.
pub proof fn lemma_full_disambiguation_resolves(board: Board, moves: Seq<Move>, k: int, r: Option<(Coord, Coord)>)
    requires
        0 <= k < moves.len(),
        !(moves[k].move_type is Promotion),
        board.cell(moves[k].origin) matches Cell::Occupied(_, _),
        forall|j: int|
            0 <= j < moves.len() && j != k && #[trigger] moves[j].origin == moves[k].origin && moves[j].dest
                == moves[k].dest ==> moves[j].move_type is Promotion,
        resolves_to(
            board,
            moves,
            SanMove {
                piece: board.cell(moves[k].origin)->0,
                disambig_col: Some(moves[k].origin.col),
                disambig_row: Some(moves[k].origin.row),
                dest: moves[k].dest,
                promotion: None,
                castle: None,
            },
            r,
        ),
    ensures
        r == Some((moves[k].origin, moves[k].dest)),
{
    let m = moves[k];
    let san = SanMove {
        piece: board.cell(m.origin)->0,
        disambig_col: Some(m.origin.col),
        disambig_row: Some(m.origin.row),
        dest: m.dest,
        promotion: None,
        castle: None,
    };
    assert(is_candidate(board, moves[k], san));
    assert forall|j: int| 0 <= j < moves.len() && j != k implies !is_candidate(board, moves[j], san) by {
        if is_candidate(board, moves[j], san) {
            assert(moves[j].origin == m.origin);
        }
    }
    match r {
        Some(od) => {
            let i = choose|i: int|
                0 <= i < moves.len() && #[trigger] is_candidate(board, moves[i], san) && (forall|j: int|
                    0 <= j < moves.len() && j != i ==> !is_candidate(board, moves[j], san)) && od == (
                moves[i].origin,
                moves[i].dest,
            );
            assert(i == k);
        },
        None => {
            if exists|i: int, j: int| 0 <= i < j < moves.len() && #[trigger] is_candidate(board, moves[i], san)
                && #[trigger] is_candidate(board, moves[j], san) {
                let (i, j) = choose|i: int, j: int| 0 <= i < j < moves.len() && #[trigger] is_candidate(board, moves[i], san)
                    && #[trigger] is_candidate(board, moves[j], san);
                assert(i == k && j == k);
            }
            assert(!is_candidate(board, moves[k], san));
        },
    }
}

/// A non-castling SAN move that two legal moves fit is ambiguous and
/// resolves to nothing; one that exactly one legal move fits resolves to it.
pub proof fn lemma_resolution_by_candidates(board: Board, moves: Seq<Move>, san: SanMove, r: Option<(Coord, Coord)>)
    requires
        san.castle.is_none(),
        resolves_to(board, moves, san, r),
    ensures
        (exists|i: int, j: int|
            0 <= i < moves.len() && 0 <= j < moves.len() && i != j && #[trigger] is_candidate(board, moves[i], san)
                && #[trigger] is_candidate(board, moves[j], san)) ==> r.is_none(),
        forall|k: int|
            0 <= k < moves.len() && #[trigger] is_candidate(board, moves[k], san) && (forall|j: int|
                0 <= j < moves.len() && j != k ==> !is_candidate(board, moves[j], san)) ==> r == Some(
                (moves[k].origin, moves[k].dest),
            ),
{
    if exists|i: int, j: int|
        0 <= i < moves.len() && 0 <= j < moves.len() && i != j && #[trigger] is_candidate(board, moves[i], san)
            && #[trigger] is_candidate(board, moves[j], san) {
        let (i, j) = choose|i: int, j: int|
            0 <= i < moves.len() && 0 <= j < moves.len() && i != j && #[trigger] is_candidate(board, moves[i], san)
                && #[trigger] is_candidate(board, moves[j], san);
        if let Some(od) = r {
            let w = choose|w: int|
                0 <= w < moves.len() && #[trigger] is_candidate(board, moves[w], san) && (forall|x: int|
                    0 <= x < moves.len() && x != w ==> !is_candidate(board, moves[x], san)) && od == (
                    moves[w].origin,
                    moves[w].dest,
                );
            assert(i == w && j == w);
        }
    }
    assert forall|k: int|
        0 <= k < moves.len() && #[trigger] is_candidate(board, moves[k], san) && (forall|j: int|
            0 <= j < moves.len() && j != k ==> !is_candidate(board, moves[j], san)) implies r == Some(
        (moves[k].origin, moves[k].dest),
    ) by {
        match r {
            Some(od) => {
                let w = choose|w: int|
                    0 <= w < moves.len() && #[trigger] is_candidate(board, moves[w], san) && (forall|x: int|
                        0 <= x < moves.len() && x != w ==> !is_candidate(board, moves[x], san)) && od == (
                        moves[w].origin,
                        moves[w].dest,
                    );
                assert(w == k);
            },
            None => {
                if exists|i: int, j: int| 0 <= i < j < moves.len() && #[trigger] is_candidate(board, moves[i], san)
                    && #[trigger] is_candidate(board, moves[j], san) {
                    let (i, j) = choose|i: int, j: int| 0 <= i < j < moves.len() && #[trigger] is_candidate(
                        board,
                        moves[i],
                        san,
                    ) && #[trigger] is_candidate(board, moves[j], san);
                    assert(i == k && j == k);
                }
                assert(!is_candidate(board, moves[k], san));
            },
        }
    }
}

/// A castling SAN move resolves to the castling move to its side when the
/// legal moves hold exactly one, and to nothing when they hold none.
pub proof fn lemma_castling_resolution(board: Board, moves: Seq<Move>, side: CastleSide, r: Option<(Coord, Coord)>)
    requires
        resolves_to(board, moves, castle_move(side), r),
    ensures
        (forall|i: int| 0 <= i < moves.len() ==> #[trigger] moves[i].move_type != MoveType::Castle(side))
            ==> r.is_none(),
        forall|k: int|
            0 <= k < moves.len() && #[trigger] moves[k].move_type == MoveType::Castle(side) && (forall|j: int|
                0 <= j < moves.len() && j != k ==> moves[j].move_type != MoveType::Castle(side)) ==> r == Some(
                (moves[k].origin, moves[k].dest),
            ),
{
    assert forall|k: int|
        0 <= k < moves.len() && #[trigger] moves[k].move_type == MoveType::Castle(side) && (forall|j: int|
            0 <= j < moves.len() && j != k ==> moves[j].move_type != MoveType::Castle(side)) implies r == Some(
        (moves[k].origin, moves[k].dest),
    ) by {
        match r {
            Some(od) => {
                let w = choose|w: int|
                    0 <= w < moves.len() && #[trigger] moves[w].move_type == MoveType::Castle(side) && (forall|j: int|
                        0 <= j < w ==> moves[j].move_type != MoveType::Castle(side)) && od == (
                        moves[w].origin,
                        moves[w].dest,
                    );
                assert(w == k);
            },
            None => {
                assert(moves[k].move_type != MoveType::Castle(side));
            },
        }
    }
}

/// A check, mate or annotation mark added at the end of a token does not
/// change how it reads.
pub proof fn lemma_end_marks_ignored(t: Seq<char>, c: char)
    requires
        is_end_mark(c),
    ensures
        parse_san_spec(t.push(c)) == parse_san_spec(t),
{
    assert(t.push(c).drop_last() =~= t);
}

} // verus!
