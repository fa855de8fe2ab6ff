use vstd::prelude::*;
use crate::ai::player::MinMaxPlayer;

verus! {

/// The outcome of a fully resolved game state.
#[derive(Copy, Clone, Debug, PartialEq, Eq, Structural)]
pub enum Outcome {
    /// One of the players has won the game.
    Win(MinMaxPlayer),
    /// The game ended without a winner.
    Draw,
}

} // verus!
