//! Game-independent minimax search.
pub mod clock;
pub mod game_state;
pub mod laws;
pub mod value;
pub mod outcome;
pub mod player;
pub mod search;

pub use game_state::GameState;
pub use outcome::Outcome;
pub use player::{MinMaxPlayer, Player};
pub use search::{iterative_minimax, minimax, minimax_pvs, SearchConfig, SearchResult};
pub use value::{LOSS_SCORE, WIN_SCORE};
