use vstd::prelude::*;

use crate::board::{Color, Coord, Piece};

verus! {

/// The chess symbol drawn for a piece. The outlined symbols are used for
/// Black and the filled ones for White, since the pieces are drawn in black
/// or white over them.
pub open spec fn piece_symbol(color: Color, piece: Piece) -> char {
    match (color, piece) {
        (Color::Black, Piece::King) => '♔',
        (Color::Black, Piece::Queen) => '♕',
        (Color::Black, Piece::Rook) => '♖',
        (Color::Black, Piece::Bishop) => '♗',
        (Color::Black, Piece::Knight) => '♘',
        (Color::Black, Piece::Pawn) => '♙',
        (Color::White, Piece::King) => '♚',
        (Color::White, Piece::Queen) => '♛',
        (Color::White, Piece::Rook) => '♜',
        (Color::White, Piece::Bishop) => '♝',
        (Color::White, Piece::Knight) => '♞',
        (Color::White, Piece::Pawn) => '♟',
    }
}

/// The chess symbol drawn for `piece` of `color` (see [`piece_symbol`]).
pub fn piece_char(color: Color, piece: &Piece) -> (c: char)
    ensures
        c == piece_symbol(color, *piece),
{
    match (color, piece) {
        (Color::Black, Piece::King) => '♔',
        (Color::Black, Piece::Queen) => '♕',
        (Color::Black, Piece::Rook) => '♖',
        (Color::Black, Piece::Bishop) => '♗',
        (Color::Black, Piece::Knight) => '♘',
        (Color::Black, Piece::Pawn) => '♙',
        (Color::White, Piece::King) => '♚',
        (Color::White, Piece::Queen) => '♛',
        (Color::White, Piece::Rook) => '♜',
        (Color::White, Piece::Bishop) => '♝',
        (Color::White, Piece::Knight) => '♞',
        (Color::White, Piece::Pawn) => '♟',
    }
}

/// The on-screen row of board row `row`: mirrored when the board is flipped.
pub open spec fn ui_row(row: int, flip: bool) -> int {
    if flip {
        7 - row
    } else {
        row
    }
}

/// The on-screen (row, column) of the board square (`row`, `col`): rows are
/// mirrored when the board is flipped, columns never are.
pub fn board_to_ui_row_col(row: usize, col: usize, flip: bool) -> (rc: (usize, usize))
    requires
        flip ==> row <= 7,
    ensures
        rc.0 == ui_row(row as int, flip),
        rc.1 == col,
{
    let ui_row = if flip {
        7 - row
    } else {
        row
    };
    (ui_row, col)
}

/// The rank label beside screen row `r` (0 at the top): the digit of
/// `8 - r` when the board is flipped, of `r + 1` otherwise.
pub open spec fn rank_label(r: int, flip: bool) -> char {
    ('0' as int + if flip {
        8 - r
    } else {
        r + 1
    }) as char
}

/// The file label above screen column `c` (0 at the left): the letter
/// `'A' + c` when the board is flipped, `'A' + 7 - c` otherwise.
pub open spec fn file_label(c: int, flip: bool) -> char {
    ('A' as int + if flip {
        c
    } else {
        7 - c
    }) as char
}

/// The coordinate labels drawn around the board: the rank labels of the
/// eight screen rows, top to bottom, and the file labels of the eight screen
/// columns, left to right.
pub fn coordinate_labels(flip: bool) -> (r: (Vec<char>, Vec<char>))
    ensures
        r.0@.len() == 8,
        r.1@.len() == 8,
        forall|i: int| 0 <= i < 8 ==> r.0@[i] == rank_label(i, flip) && r.1@[i] == file_label(i, flip),
{
    let mut ranks: Vec<char> = Vec::new();
    let mut files: Vec<char> = Vec::new();
    let mut i: u8 = 0;
    while i < 8
        invariant
            i <= 8,
            ranks@.len() == i,
            files@.len() == i,
            forall|j: int| 0 <= j < i ==> ranks@[j] == rank_label(j, flip) && files@[j] == file_label(j, flip),
        decreases 8 - i,
    {
        let rank: u8 = if flip {
            8 - i
        } else {
            i + 1
        };
        let file: u8 = if flip {
            i
        } else {
            7 - i
        };
        ranks.push((48u8 + rank) as char);
        files.push((65u8 + file) as char);
        i = i + 1;
    }
    (ranks, files)
}

/// How a square of the board is highlighted.
#[derive(Clone, Copy, Debug, PartialEq, Eq, Structural)]
pub enum SquareShade {
    /// The king of the side to move, mated.
    Mate,
    /// The king of the side to move, in check.
    Check,
    /// A square the opponent threatens.
    Threatened,
    /// A square the selected piece can move to.
    LegalTarget,
    /// The origin or destination of the last move.
    LastMove,
    /// The square of the selected piece.
    Selected,
    /// No highlight.
    Plain,
}

/// Which highlights the player asked for.
#[derive(Clone, Copy, Debug, PartialEq, Eq, Structural)]
pub struct ShadeOptions {
    pub show_threaten_cells: bool,
    pub show_legals_moves: bool,
    pub show_last_move: bool,
}

/// What the board view knows when it shades a square: whether the side to
/// move is in check, the square of its king, whether the game ended by mate,
/// the squares the opponent threatens, the squares the selected piece can
/// move to, the last move, and the selected square.
pub struct ShadeContext {
    pub in_check: bool,
    pub king: Option<Coord>,
    pub checkmate: bool,
    pub threatened: Vec<Coord>,
    pub legal_targets: Vec<Coord>,
    pub last_move: Option<(Coord, Coord)>,
    pub selected: Option<Coord>,
}

/// The highlight of square `sq`, the first that applies of: the checked king
/// of the side to move (when it stands on a threatened square), mated or
/// not; a threatened square, when threats are shown; a legal target of the
/// selected piece, when those are shown; an end of the last move, when it is
/// shown; the selected square.
pub open spec fn square_shade_spec(ctx: ShadeContext, options: ShadeOptions, sq: Coord) -> SquareShade {
    if ctx.in_check && ctx.king == Some(sq) && ctx.threatened@.contains(sq) {
        if ctx.checkmate {
            SquareShade::Mate
        } else {
            SquareShade::Check
        }
    } else if options.show_threaten_cells && ctx.threatened@.contains(sq) {
        SquareShade::Threatened
    } else if ctx.legal_targets@.contains(sq) && options.show_legals_moves {
        SquareShade::LegalTarget
    } else if ctx.last_move matches Some((from, to)) && (sq == from || sq == to) && options.show_last_move {
        SquareShade::LastMove
    } else if ctx.selected == Some(sq) {
        SquareShade::Selected
    } else {
        SquareShade::Plain
    }
}

fn contains_coord(v: &Vec<Coord>, c: Coord) -> (b: bool)
    ensures
        b == v@.contains(c),
{
    let mut i: usize = 0;
    while i < v.len()
        invariant
            i <= v@.len(),
            forall|j: int| 0 <= j < i ==> v@[j] != c,
        decreases v@.len() - i,
    {
        if v[i] == c {
            assert(v@[i as int] == c);
            return true;
        }
        i = i + 1;
    }
    false
}

/// The highlight of square `sq` (see [`square_shade_spec`]).
pub fn square_shade(ctx: &ShadeContext, options: ShadeOptions, sq: Coord) -> (s: SquareShade)
    ensures
        s == square_shade_spec(*ctx, options, sq),
{
    let threatened = contains_coord(&ctx.threatened, sq);
    if ctx.in_check && ctx.king == Some(sq) && threatened {
        if ctx.checkmate {
            SquareShade::Mate
        } else {
            SquareShade::Check
        }
    } else if options.show_threaten_cells && threatened {
        SquareShade::Threatened
    } else if contains_coord(&ctx.legal_targets, sq) && options.show_legals_moves {
        SquareShade::LegalTarget
    } else if options.show_last_move && match ctx.last_move {
        Some((from, to)) => sq == from || sq == to,
        None => false,
    } {
        SquareShade::LastMove
    } else if ctx.selected == Some(sq) {
        SquareShade::Selected
    } else {
        SquareShade::Plain
    }
}

/// Showing threats only adds that highlight: with `show_threaten_cells`
/// turned on, a square's shade changes only to
/// [`SquareShade::Threatened`] and only on a threatened square; and a
/// threatened square that is not the checked king's is shaded as threatened.
pub proof fn lemma_show_threats(ctx: ShadeContext, options: ShadeOptions, sq: Coord)
    ensures
        ({
            let off = ShadeOptions { show_threaten_cells: false, ..options };
            let on = ShadeOptions { show_threaten_cells: true, ..options };
            &&& square_shade_spec(ctx, on, sq) != square_shade_spec(ctx, off, sq) ==> square_shade_spec(ctx, on, sq)
                == SquareShade::Threatened && ctx.threatened@.contains(sq)
            &&& ctx.threatened@.contains(sq) && square_shade_spec(ctx, off, sq) != SquareShade::Mate
                && square_shade_spec(ctx, off, sq) != SquareShade::Check ==> square_shade_spec(ctx, on, sq)
                == SquareShade::Threatened
        }),
{
}

/// Showing legal targets only adds that highlight: with `show_legals_moves`
/// turned on, a square's shade changes only to [`SquareShade::LegalTarget`]
/// and only on a legal target; and a legal target left plain, selected or
/// shaded as the last move with it off is shaded as a legal target with it
/// on.
pub proof fn lemma_show_legal_targets(ctx: ShadeContext, options: ShadeOptions, sq: Coord)
    ensures
        ({
            let off = ShadeOptions { show_legals_moves: false, ..options };
            let on = ShadeOptions { show_legals_moves: true, ..options };
            let low = square_shade_spec(ctx, off, sq) == SquareShade::Plain || square_shade_spec(ctx, off, sq)
                == SquareShade::Selected || square_shade_spec(ctx, off, sq) == SquareShade::LastMove;
            &&& square_shade_spec(ctx, on, sq) != square_shade_spec(ctx, off, sq) ==> square_shade_spec(ctx, on, sq)
                == SquareShade::LegalTarget && ctx.legal_targets@.contains(sq)
            &&& ctx.legal_targets@.contains(sq) && low ==> square_shade_spec(ctx, on, sq) == SquareShade::LegalTarget
        }),
{
}

/// The king's square is shaded for check or mate exactly when the side to
/// move is in check, its king stands on it and it is threatened, whatever
/// highlights are shown; mate when the game ended by mate, check otherwise.
/// A square is shaded as selected only when it is the selected square.
pub proof fn lemma_check_shade(ctx: ShadeContext, options: ShadeOptions, sq: Coord)
    ensures
        (square_shade_spec(ctx, options, sq) == SquareShade::Mate || square_shade_spec(ctx, options, sq)
            == SquareShade::Check) <==> (ctx.in_check && ctx.king == Some(sq) && ctx.threatened@.contains(sq)),
        square_shade_spec(ctx, options, sq) == SquareShade::Mate <==> (ctx.in_check && ctx.king == Some(sq)
            && ctx.threatened@.contains(sq) && ctx.checkmate),
        square_shade_spec(ctx, options, sq) == SquareShade::Selected ==> ctx.selected == Some(sq),
{
}

/// Showing the last move only adds that highlight: with `show_last_move`
/// turned on, a square's shade changes only to [`SquareShade::LastMove`] and
/// only on the origin or the destination of the last move; and both of those
/// squares, when left plain or only selected with it off, are shaded as the
/// last move with it on.
pub proof fn lemma_show_last_move(ctx: ShadeContext, options: ShadeOptions, sq: Coord)
    ensures
        ({
            let off = ShadeOptions { show_last_move: false, ..options };
            let on = ShadeOptions { show_last_move: true, ..options };
            let is_end = ctx.last_move matches Some((f, t)) && (sq == f || sq == t);
            &&& square_shade_spec(ctx, on, sq) != square_shade_spec(ctx, off, sq) ==> square_shade_spec(ctx, on, sq)
                == SquareShade::LastMove && is_end
            &&& is_end && (square_shade_spec(ctx, off, sq) == SquareShade::Plain || square_shade_spec(ctx, off, sq)
                == SquareShade::Selected) ==> square_shade_spec(ctx, on, sq) == SquareShade::LastMove
        }),
{
}

/// Mapping a row to the screen and mapping the result again gives the row
/// back, flipped or not: the same mapping takes screen rows to board rows.
pub proof fn lemma_ui_row_involutive(row: int, flip: bool)
    ensures
        ui_row(ui_row(row, flip), flip) == row,
{
}

} // verus!
