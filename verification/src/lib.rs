pub mod app_types;
pub mod board;
pub mod game_state;
pub mod history;
pub mod moves;
pub mod pgn_decode;
pub mod pgn_encode;
pub mod pgn_export;
pub mod pgn_import;
pub mod promote;
pub mod render;
pub mod replay;
pub mod san_move;
pub mod text;
pub mod undo;
pub mod round_trip;
