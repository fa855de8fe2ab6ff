//! Connect Four with a verified minimax search.
//!
//! `ai` holds the game-independent search (minimax with optional alpha-beta
//! pruning, principal variation search and iterative deepening), `engine`
//! holds the Connect Four rules on bitboards, and `bench` holds the logic of
//! the self-play benchmark.
pub mod ai;
pub mod engine;
pub mod bench;
