use vstd::prelude::*;

use crate::board::{Board, Cell, Color, Coord, Piece};

verus! {

/// A promotion waiting for the player's choice of piece: the move that
/// brought the pawn to the last rank, the board before that move, the square
/// of the pawn, and the chosen piece once known.
#[derive(Clone, Copy, Debug)]
pub struct PromoteInfo {
    pub from: Coord,
    pub to: Coord,
    pub prev_board: Board,
    pub pawn_to_promote: Option<Coord>,
    pub promote: Option<Piece>,
}

/// The last rank of `color`: where its pawns promote.
pub open spec fn promotion_row(color: Color) -> int {
    if color == Color::White {
        7
    } else {
        0
    }
}

/// A pawn of `color` stands on `color`'s last rank of `board`.
pub open spec fn has_pawn_to_promote(board: Board, color: Color) -> bool {
    exists|y: int| 0 <= y < 8 && #[trigger] board.grid[promotion_row(color)][y] == Cell::Occupied(Piece::Pawn, color)
}

/// After the move from `from` to `to` (played on `prev_board`, giving
/// `board`), prepares the promotion when a pawn of `color` stands on its last
/// rank: the move, the previous board, the square `to` of the pawn, and no
/// piece chosen yet. `None` when there is no pawn to promote.
pub fn promote_pawn(board: &Board, color: &Color, from: &Coord, to: &Coord, prev_board: &Board) -> (r: Option<PromoteInfo>)
    ensures
        r.is_some() == has_pawn_to_promote(*board, *color),
        r matches Some(info) ==> info.from == *from && info.to == *to && info.prev_board == *prev_board
            && info.pawn_to_promote == Some(*to) && info.promote.is_none(),
{
    let promote_row: usize = if *color == Color::White {
        7
    } else {
        0
    };
    let mut y: usize = 0;
    while y < 8
        invariant
            y <= 8,
            promote_row == promotion_row(*color),
            forall|k: int| 0 <= k < y ==> board.grid[promote_row as int][k] != Cell::Occupied(Piece::Pawn, *color),
        decreases 8 - y,
    {
        let cell = &board.grid[promote_row][y];
        if cell.is_color(color) {
            if let Some(piece) = cell.get_piece() {
                if *piece == Piece::Pawn {
                    return Some(
                        PromoteInfo {
                            from: *from,
                            to: *to,
                            prev_board: *prev_board,
                            pawn_to_promote: Some(*to),
                            promote: None,
                        },
                    );
                }
            }
        }
        y = y + 1;
    }
    None
}

/// Pawns promote on the far rank: a White pawn on row 7, or a Black pawn on
/// row 0, makes a promotion due for its side, and nothing else does.
pub proof fn lemma_promotion_on_far_rank(board: Board, color: Color)
    ensures
        color == Color::White ==> (has_pawn_to_promote(board, color) <==> exists|y: int|
            0 <= y < 8 && #[trigger] board.grid[7][y] == Cell::Occupied(Piece::Pawn, Color::White)),
        color == Color::Black ==> (has_pawn_to_promote(board, color) <==> exists|y: int|
            0 <= y < 8 && #[trigger] board.grid[0][y] == Cell::Occupied(Piece::Pawn, Color::Black)),
{
}

} // verus!
