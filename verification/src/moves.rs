use vstd::prelude::*;

use crate::board::{Coord, Piece};

verus! {

/// The side a king castles to: `Left` toward file a (long castling), `Right`
/// toward file h (short castling).
#[derive(Clone, Copy, Debug, PartialEq, Eq, Hash, Structural)]
pub enum CastleSide {
    Left,
    Right,
}

/// The kind of a legal move.
#[derive(Clone, Copy, Debug, PartialEq, Eq, Hash, Structural)]
pub enum MoveType {
    Normal,
    EnPassant,
    Castle(CastleSide),
    Promotion(Piece),
}

/// A legal move: from `origin` to `dest`, of kind `move_type`.
#[derive(Clone, Copy, Debug, PartialEq, Eq, Hash, Structural)]
pub struct Move {
    pub origin: Coord,
    pub dest: Coord,
    pub move_type: MoveType,
}

} // verus!
