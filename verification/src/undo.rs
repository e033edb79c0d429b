use vstd::prelude::*;

use crate::app_types::{End, WinDia};
use crate::board::Color;

verus! {

/// The undo settings of a game: whether undoing is allowed, how many undos
/// each side has left, and the limit chosen in the lobby (0 for none).
#[derive(Clone, Copy, Debug, PartialEq, Eq, Structural)]
pub struct UndoSettings {
    pub allow_undo: bool,
    pub white_undo: u8,
    pub black_undo: u8,
    pub undo_limit: u8,
}

impl UndoSettings {
    /// The undos `color` has left.
    pub open spec fn undos_left(self, color: Color) -> int {
        match color {
            Color::White => self.white_undo as int,
            Color::Black => self.black_undo as int,
        }
    }

    /// The settings of a new application: undo not allowed, no undo left, no
    /// limit.
    pub fn new() -> (s: Self)
        ensures
            !s.allow_undo,
            s.white_undo == 0,
            s.black_undo == 0,
            s.undo_limit == 0,
    {
        UndoSettings { allow_undo: false, white_undo: 0, black_undo: 0, undo_limit: 0 }
    }

    /// Undo is allowed and some side has an undo left.
    pub fn is_undoable(&self) -> (b: bool)
        ensures
            b == (self.allow_undo && (self.white_undo > 0 || self.black_undo > 0)),
    {
        self.allow_undo && (self.white_undo > 0 || self.black_undo > 0)
    }

    /// Whether `opponent`, who is asked to accept the undo, still has one.
    pub fn can_undo(&self, opponent: Color) -> (b: bool)
        ensures
            b == (self.undos_left(opponent) > 0),
    {
        match opponent {
            Color::White => self.white_undo > 0,
            Color::Black => self.black_undo > 0,
        }
    }

    /// Uses one of `opponent`'s undos.
    pub fn decremente_undo(&mut self, opponent: Color)
        requires
            old(self).undos_left(opponent) > 0,
        ensures
            final(self).undos_left(opponent) == old(self).undos_left(opponent) - 1,
            final(self).undos_left(opponent.other()) == old(self).undos_left(opponent.other()),
            final(self).allow_undo == old(self).allow_undo,
            final(self).undo_limit == old(self).undo_limit,
    {
        match opponent {
            Color::White => {
                self.white_undo = self.white_undo - 1;
            },
            Color::Black => {
                self.black_undo = self.black_undo - 1;
            },
        }
    }

    /// The "Allow undo" toggle: flips the permission; turning it on starts
    /// both sides at zero undos, turning it off sets both at one.
    pub fn toggle_allow_undo(&mut self)
        ensures
            final(self).allow_undo == !old(self).allow_undo,
            final(self).allow_undo ==> final(self).white_undo == 0 && final(self).black_undo == 0,
            !final(self).allow_undo ==> final(self).white_undo == 1 && final(self).black_undo == 1,
            final(self).undo_limit == old(self).undo_limit,
    {
        self.allow_undo = !self.allow_undo;
        if self.allow_undo {
            self.white_undo = 0;
            self.black_undo = 0;
        } else {
            self.white_undo = 1;
            self.black_undo = 1;
        }
    }

    /// The undo-limit menu: "No limit" (0) turns undo off with no undo left;
    /// a limit from 1 to 5 gives each side that many undos.
    pub fn choose_undo_limit(&mut self, limit: u8)
        requires
            limit <= 5,
        ensures
            final(self).undo_limit == limit,
            final(self).white_undo == limit,
            final(self).black_undo == limit,
            final(self).allow_undo == (if limit == 0 {
                false
            } else {
                old(self).allow_undo
            }),
    {
        self.undo_limit = limit;
        self.white_undo = limit;
        self.black_undo = limit;
        if limit == 0 {
            self.allow_undo = false;
        }
    }

    /// Whether the undo button is shown: the game is not over, the opponent
    /// of the side to move can still undo, no dialog is open, and more than
    /// one position was played.
    pub fn is_undo_to_display(&self, end: Option<End>, win: Option<WinDia>, history_len: usize, active_player: Color) -> (b: bool)
        ensures
            b == (end.is_none() && self.undos_left(active_player.other()) > 0 && win.is_none() && (history_len > 1
                || history_len == 2 && active_player == Color::White)),
    {
        let opponent = match active_player {
            Color::White => Color::Black,
            Color::Black => Color::White,
        };
        end.is_none() && self.can_undo(opponent) && win.is_none() && (history_len > 1 || history_len == 2
            && active_player == Color::White)
    }
}

} // verus!
