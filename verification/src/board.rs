use vstd::prelude::*;

verus! {

/// The two sides of a chess game.
#[derive(Clone, Copy, Debug, PartialEq, Eq, Hash, Structural)]
pub enum Color {
    White,
    Black,
}

/// The six kinds of chess pieces.
#[derive(Clone, Copy, Debug, PartialEq, Eq, Hash, Structural)]
pub enum Piece {
    Pawn,
    Rook,
    Knight,
    Bishop,
    Queen,
    King,
}

/// A square of the board: either a piece of some color, or nothing.
#[derive(Clone, Copy, Debug, PartialEq, Eq, Hash, Structural)]
pub enum Cell {
    Occupied(Piece, Color),
    Free,
}

/// A square address: `row` is the rank (0 is White's back rank), `col` the file (0 is file a).
#[derive(Clone, Copy, Debug, PartialEq, Eq, Hash, Structural)]
pub struct Coord {
    pub row: u8,
    pub col: u8,
}

impl Coord {
    /// The coordinate designates a square of the 8x8 board.
    pub open spec fn on_board(self) -> bool {
        self.row < 8 && self.col < 8
    }
}

/// The board: `grid[row][col]`, the castling rights of each side
/// (`(long, short)`), the square a pawn may be taken on en passant, and the
/// square of a king in check, if any.
#[derive(Clone, Copy, Debug, PartialEq, Eq, Hash)]
pub struct Board {
    pub grid: [[Cell; 8]; 8],
    pub white_castle: (bool, bool),
    pub black_castle: (bool, bool),
    pub en_passant: Option<Coord>,
    pub check: Option<Coord>,
}

impl Color {
    /// The other side.
    pub open spec fn other(self) -> Color {
        match self {
            Color::White => Color::Black,
            Color::Black => Color::White,
        }
    }
}

impl Cell {
    /// Whether the cell holds a piece of `color`.
    pub fn is_color(&self, color: &Color) -> (b: bool)
        ensures
            b == (*self matches Cell::Occupied(_, c) && c == *color),
    {
        match self {
            Cell::Occupied(_, c) => *c == *color,
            Cell::Free => false,
        }
    }

    /// The piece standing on the cell, if any.
    pub fn get_piece(&self) -> (p: Option<&Piece>)
        ensures
            p == (match *self {
                Cell::Occupied(q, _) => Some(&q),
                Cell::Free => None,
            }),
    {
        match self {
            Cell::Occupied(p, _) => Some(p),
            Cell::Free => None,
        }
    }

    /// The color of the piece standing on the cell, if any.
    pub fn get_color(&self) -> (c: Option<&Color>)
        ensures
            c == (match *self {
                Cell::Occupied(_, k) => Some(&k),
                Cell::Free => None,
            }),
    {
        match self {
            Cell::Occupied(_, c) => Some(c),
            Cell::Free => None,
        }
    }

    /// Whether no piece stands on the cell.
    pub fn is_empty(&self) -> (b: bool)
        ensures
            b == (*self == Cell::Free),
    {
        match self {
            Cell::Occupied(_, _) => false,
            Cell::Free => true,
        }
    }
}

/// The piece that starts a game on file `col` of a back rank.
pub open spec fn back_rank_piece(col: int) -> Piece {
    if col == 0 || col == 7 {
        Piece::Rook
    } else if col == 1 || col == 6 {
        Piece::Knight
    } else if col == 2 || col == 5 {
        Piece::Bishop
    } else if col == 3 {
        Piece::Queen
    } else {
        Piece::King
    }
}

/// The cell at `(row, col)` when a game starts.
pub open spec fn initial_cell(row: int, col: int) -> Cell {
    if row == 0 {
        Cell::Occupied(back_rank_piece(col), Color::White)
    } else if row == 1 {
        Cell::Occupied(Piece::Pawn, Color::White)
    } else if row == 6 {
        Cell::Occupied(Piece::Pawn, Color::Black)
    } else if row == 7 {
        Cell::Occupied(back_rank_piece(col), Color::Black)
    } else {
        Cell::Free
    }
}

fn back_rank(color: Color) -> (r: [Cell; 8])
    ensures
        forall|c: int| 0 <= c < 8 ==> r[c] == Cell::Occupied(back_rank_piece(c), color),
{
    [
        Cell::Occupied(Piece::Rook, color),
        Cell::Occupied(Piece::Knight, color),
        Cell::Occupied(Piece::Bishop, color),
        Cell::Occupied(Piece::Queen, color),
        Cell::Occupied(Piece::King, color),
        Cell::Occupied(Piece::Bishop, color),
        Cell::Occupied(Piece::Knight, color),
        Cell::Occupied(Piece::Rook, color),
    ]
}

impl Board {
    /// The board of a new game: every piece on its starting square, all
    /// castling rights, no en-passant square and no check.
    pub fn init_board() -> (b: Board)
        ensures
            forall|r: int, c: int| 0 <= r < 8 && 0 <= c < 8 ==> b.grid[r][c] == initial_cell(r, c),
            b.white_castle == (true, true),
            b.black_castle == (true, true),
            b.en_passant.is_none(),
            b.check.is_none(),
    {
        let free = [Cell::Free; 8];
        let grid = [
            back_rank(Color::White),
            [Cell::Occupied(Piece::Pawn, Color::White); 8],
            free,
            free,
            free,
            free,
            [Cell::Occupied(Piece::Pawn, Color::Black); 8],
            back_rank(Color::Black),
        ];
        Board { grid, white_castle: (true, true), black_castle: (true, true), en_passant: None, check: None }
    }

    /// The cell at `coord`.
    pub open spec fn cell(self, coord: Coord) -> Cell {
        self.grid[coord.row as int][coord.col as int]
    }

    /// The cell at `coord`.
    pub fn get(&self, coord: &Coord) -> (c: &Cell)
        requires
            coord.on_board(),
        ensures
            *c == self.cell(*coord),
    {
        &self.grid[coord.row as usize][coord.col as usize]
    }
}

} // verus!
