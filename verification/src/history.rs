use vstd::prelude::*;

use crate::game_state::GameState;

verus! {

/// The game states played so far and the move text of the game.
pub struct History {
    pub snapshots: Vec<GameState>,
    pub history_san: String,
}

impl History {
    /// An empty history.
    pub fn new() -> (h: Self)
        ensures
            h.snapshots@.len() == 0,
            h.history_san@ == Seq::<char>::empty(),
    {
        History { snapshots: Vec::new(), history_san: String::new() }
    }
}

impl Default for History {
    /// An empty history.
    fn default() -> (h: Self)
        ensures
            h.snapshots@.len() == 0,
            h.history_san@ == Seq::<char>::empty(),
    {
        Self::new()
    }
}

} // verus!
