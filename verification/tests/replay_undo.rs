use chessgame::app_types::{End, WinDia};
use chessgame::board::{Color, Coord};
use chessgame::render::{coordinate_labels, square_shade, ShadeContext, ShadeOptions, SquareShade};
use chessgame::replay::{first_state, last_state, next_state, player_at, prev_state, replay_tick, ReplayStep};
use chessgame::undo::UndoSettings;

#[test]
fn replay_navigation() {
    assert_eq!(first_state(), ReplayStep { index: 0, active_player: Color::White });
    assert_eq!(prev_state(0), None);
    assert_eq!(prev_state(3), Some(ReplayStep { index: 2, active_player: Color::White }));
    assert_eq!(next_state(2, 5), Some(ReplayStep { index: 3, active_player: Color::Black }));
    assert_eq!(next_state(4, 5), None);
    assert_eq!(last_state(1, 5), Some(ReplayStep { index: 4, active_player: Color::White }));
    assert_eq!(last_state(4, 5), None);
    assert_eq!(player_at(7), Color::Black);
    let forward = next_state(6, 9).unwrap();
    assert_eq!(prev_state(forward.index), Some(ReplayStep { index: 6, active_player: Color::White }));
}

#[test]
fn replay_ticks_until_the_end() {
    assert_eq!(replay_tick(0, 3), Ok(ReplayStep { index: 1, active_player: Color::Black }));
    assert_eq!(replay_tick(1, 3), Ok(ReplayStep { index: 2, active_player: Color::White }));
    assert_eq!(replay_tick(2, 3), Err(3));
    assert_eq!(replay_tick(0, 0), Err(0));
}

#[test]
fn undo_allowance() {
    let mut s = UndoSettings::new();
    assert!(!s.is_undoable());
    s.toggle_allow_undo();
    assert!(s.allow_undo);
    assert!(!s.is_undoable());
    s.choose_undo_limit(2);
    assert!(s.is_undoable());
    assert!(s.can_undo(Color::Black));
    s.decremente_undo(Color::Black);
    s.decremente_undo(Color::Black);
    assert!(!s.can_undo(Color::Black));
    assert!(s.can_undo(Color::White));
    assert!(s.is_undoable());
    s.choose_undo_limit(0);
    assert!(!s.allow_undo);
    assert!(!s.is_undoable());
    s.toggle_allow_undo();
    s.toggle_allow_undo();
    assert!(!s.allow_undo);
    assert_eq!((s.white_undo, s.black_undo), (1, 1));
}

#[test]
fn undo_button_visibility() {
    let mut s = UndoSettings::new();
    s.toggle_allow_undo();
    s.choose_undo_limit(1);
    assert!(s.is_undo_to_display(None, None, 3, Color::White));
    assert!(!s.is_undo_to_display(Some(End::Resign), None, 3, Color::White));
    assert!(!s.is_undo_to_display(None, Some(WinDia::Undo), 3, Color::White));
    assert!(!s.is_undo_to_display(None, None, 1, Color::White));
    s.decremente_undo(Color::Black);
    assert!(!s.is_undo_to_display(None, None, 3, Color::White));
    assert!(s.is_undo_to_display(None, None, 3, Color::Black));
}

#[test]
fn replay_tick_never_passes_the_end() {
    for len in 0..5usize {
        for index in 0..=len {
            match replay_tick(index, len) {
                Ok(step) => assert!(step.index == index + 1 && step.index < len),
                Err(end) => assert_eq!(end, len),
            }
        }
    }
    assert_eq!(replay_tick(usize::MAX, usize::MAX), Err(usize::MAX));
}

#[test]
fn coordinate_labels_follow_the_flip() {
    let (ranks, files) = coordinate_labels(false);
    assert_eq!(ranks, vec!['1', '2', '3', '4', '5', '6', '7', '8']);
    assert_eq!(files, vec!['H', 'G', 'F', 'E', 'D', 'C', 'B', 'A']);
    let (ranks, files) = coordinate_labels(true);
    assert_eq!(ranks, vec!['8', '7', '6', '5', '4', '3', '2', '1']);
    assert_eq!(files, vec!['A', 'B', 'C', 'D', 'E', 'F', 'G', 'H']);
}

fn sq(col: u8, row: u8) -> Coord {
    Coord { col, row }
}

#[test]
fn square_shades_by_priority() {
    let all = ShadeOptions { show_threaten_cells: true, show_legals_moves: true, show_last_move: true };
    let none = ShadeOptions { show_threaten_cells: false, show_legals_moves: false, show_last_move: false };
    let mut ctx = ShadeContext {
        in_check: true,
        king: Some(sq(4, 0)),
        checkmate: false,
        threatened: vec![sq(4, 0), sq(3, 3)],
        legal_targets: vec![sq(3, 3), sq(5, 5)],
        last_move: Some((sq(6, 6), sq(5, 5))),
        selected: Some(sq(2, 2)),
    };
    assert_eq!(square_shade(&ctx, none, sq(4, 0)), SquareShade::Check);
    assert_eq!(square_shade(&ctx, all, sq(3, 3)), SquareShade::Threatened);
    assert_eq!(square_shade(&ctx, none, sq(3, 3)), SquareShade::Plain);
    assert_eq!(square_shade(&ctx, all, sq(5, 5)), SquareShade::LegalTarget);
    assert_eq!(square_shade(&ctx, all, sq(6, 6)), SquareShade::LastMove);
    assert_eq!(square_shade(&ctx, none, sq(6, 6)), SquareShade::Plain);
    assert_eq!(square_shade(&ctx, none, sq(2, 2)), SquareShade::Selected);
    assert_eq!(square_shade(&ctx, all, sq(0, 7)), SquareShade::Plain);
    ctx.checkmate = true;
    assert_eq!(square_shade(&ctx, all, sq(4, 0)), SquareShade::Mate);
    ctx.threatened = vec![];
    assert_eq!(square_shade(&ctx, all, sq(4, 0)), SquareShade::Plain);
}
