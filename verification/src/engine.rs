//! The Connect Four game on bitboards.
pub mod bitboard;
pub mod constants;
pub mod game_state;
pub mod moves;
pub mod player;
pub mod reachable;
pub mod text;
