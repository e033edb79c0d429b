use vstd::prelude::*;

verus! {

/// How a game ended.
#[derive(Clone, Copy, Debug, PartialEq, Eq, Structural)]
pub enum End {
    Checkmate,
    TimeOut,
    Pat,
    Draw,
    Resign,
}

/// What the application is showing: a game being played (with its end once
/// it is over), the replay of a finished game, or the lobby.
#[derive(Clone, Copy, Debug, PartialEq, Eq, Structural)]
pub enum AppMode {
    Versus(Option<End>),
    Replay,
    Lobby,
}

/// The two layouts of the interface.
#[derive(Clone, Copy, Debug, PartialEq, Eq, Structural)]
pub enum UiType {
    Desktop,
    Mobile,
}

/// The dialog window currently open, if any.
#[derive(Clone, Copy, Debug, PartialEq, Eq, Structural)]
pub enum WinDia {
    Settings,
    Promote,
    DrawRequest,
    Resign,
    Timer,
    Undo,
    Pgn,
}

/// Strength of the engine when it plays a side.
#[derive(Clone, Copy, Debug, PartialEq, Eq, Structural)]
pub enum BotDifficulty {
    Easy,
    Medium,
    Hard,
}

/// Who plays a side.
#[derive(Clone, Copy, Debug, PartialEq, Eq, Structural)]
pub enum PlayerType {
    Human,
    Bot(BotDifficulty),
}

} // verus!
