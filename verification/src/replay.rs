use vstd::prelude::*;

use crate::board::Color;

verus! {

/// The side to move at position `index` of a replayed game: White at even
/// positions, Black at odd ones.
pub open spec fn side_at(index: int) -> Color {
    if index % 2 == 0 {
        Color::White
    } else {
        Color::Black
    }
}

/// A replay position and the side to move there.
#[derive(Clone, Copy, Debug, PartialEq, Eq, Structural)]
pub struct ReplayStep {
    pub index: usize,
    pub active_player: Color,
}

/// The position the "<" button goes to from `index`: none at the first one.
pub open spec fn prev_step(index: int) -> Option<ReplayStep> {
    if index > 0 {
        Some(ReplayStep { index: (index - 1) as usize, active_player: side_at(index - 1) })
    } else {
        None
    }
}

/// The position the ">" button goes to from `index` in a history of
/// `history_len` positions: none at the last one.
pub open spec fn next_step(index: int, history_len: int) -> Option<ReplayStep> {
    if index < history_len - 1 {
        Some(ReplayStep { index: (index + 1) as usize, active_player: side_at(index + 1) })
    } else {
        None
    }
}

/// The side to move at replay position `index` (see [`side_at`]).
pub fn player_at(index: usize) -> (c: Color)
    ensures
        c == side_at(index as int),
{
    if index % 2 == 0 {
        Color::White
    } else {
        Color::Black
    }
}

/// The "|<" button: back to the first position, White to move.
pub fn first_state() -> (s: ReplayStep)
    ensures
        s.index == 0,
        s.active_player == Color::White,
{
    ReplayStep { index: 0, active_player: Color::White }
}

/// The "<" button: one position back, or nothing at the first position.
pub fn prev_state(index: usize) -> (s: Option<ReplayStep>)
    ensures
        s == prev_step(index as int),
{
    if index > 0 {
        let i = index - 1;
        Some(ReplayStep { index: i, active_player: player_at(i) })
    } else {
        None
    }
}

/// The ">" button: one position forward, or nothing at the last position of
/// a history of `history_len` positions.
pub fn next_state(index: usize, history_len: usize) -> (s: Option<ReplayStep>)
    requires
        history_len > 0,
    ensures
        s == next_step(index as int, history_len as int),
{
    if index < history_len - 1 {
        let i = index + 1;
        Some(ReplayStep { index: i, active_player: player_at(i) })
    } else {
        None
    }
}

/// The ">|" button: to the last position, or nothing when already there.
pub fn last_state(index: usize, history_len: usize) -> (s: Option<ReplayStep>)
    requires
        history_len > 0,
    ensures
        index >= history_len - 1 ==> s.is_none(),
        index < history_len - 1 ==> s == Some(ReplayStep { index: (history_len - 1) as usize, active_player: side_at(history_len - 1) }),
{
    if index < history_len - 1 {
        let i = history_len - 1;
        Some(ReplayStep { index: i, active_player: player_at(i) })
    } else {
        None
    }
}

/// One tick of the automatic replay from position `index` of a history of
/// `history_len` positions: the next position while there is one (`Ok`, the
/// replay goes on); past the last position, the index becomes the history
/// length and the replay stops (`Err`).
pub open spec fn tick(index: int, history_len: int) -> Result<ReplayStep, usize> {
    if index + 1 < history_len {
        Ok(ReplayStep { index: (index + 1) as usize, active_player: side_at(index + 1) })
    } else {
        Err(history_len as usize)
    }
}

/// One tick of the automatic replay (see [`tick`]).
pub fn replay_tick(index: usize, history_len: usize) -> (r: Result<ReplayStep, usize>)
    ensures
        r == tick(index as int, history_len as int),
{
    if history_len > 0 && index < history_len - 1 {
        let i = index + 1;
        Ok(ReplayStep { index: i, active_player: player_at(i) })
    } else {
        Err(history_len)
    }
}

/// The automatic replay never runs past the history: from a position no
/// further than the history's length, a tick either moves one position
/// forward to a position of the history, with the side to move of that
/// position, or stops with the index at the history's length.
pub proof fn lemma_tick_stays_in_history(index: usize, history_len: usize)
    requires
        index <= history_len,
    ensures
        match tick(index as int, history_len as int) {
            Ok(s) => s.index == index + 1 && s.index < history_len && s.active_player == side_at(s.index as int),
            Err(end) => end == history_len && index + 1 >= history_len,
        },
{
}

/// Going one position forward and then one back returns to the position
/// left, with the same side to move.
pub proof fn lemma_next_then_prev(index: usize, history_len: usize)
    requires
        next_step(index as int, history_len as int) is Some,
    ensures
        prev_step(next_step(index as int, history_len as int)->0.index as int) == Some(
            ReplayStep { index, active_player: side_at(index as int) },
        ),
{
}

/// The side to move alternates from one position to the next.
pub proof fn lemma_sides_alternate(index: int)
    requires
        index >= 0,
    ensures
        side_at(index + 1) == side_at(index).other(),
{
}

} // verus!
