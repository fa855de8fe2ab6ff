use vstd::prelude::*;

verus! {

/// A player type used by the minimax algorithm.
///
/// - [`MinMaxPlayer::Max`] is the player for whom the score is maximized.
/// - [`MinMaxPlayer::Min`] is the opponent (minimizing player).
#[derive(Copy, Clone, Debug, PartialEq, Eq, Hash, Structural)]
pub enum MinMaxPlayer {
    Max,
    Min,
}

/// The opponent of `p`.
pub open spec fn opponent_of(p: MinMaxPlayer) -> MinMaxPlayer {
    match p {
        MinMaxPlayer::Max => MinMaxPlayer::Min,
        MinMaxPlayer::Min => MinMaxPlayer::Max,
    }
}

/// A player in a two-player zero-sum game: it can hand the turn over to its
/// opponent and has a symbol for display.
pub trait Player: Clone + Sized {
    /// Returns the opponent of this player.
    fn opponent(self) -> Self;

    /// Returns the character symbol used by this player.
    fn symbol(self) -> char;
}

impl Player for MinMaxPlayer {
    fn opponent(self) -> (r: Self)
        ensures
            r == opponent_of(self),
    {
        match self {
            MinMaxPlayer::Max => MinMaxPlayer::Min,
            MinMaxPlayer::Min => MinMaxPlayer::Max,
        }
    }

    fn symbol(self) -> (c: char)
        ensures
            c == (match self {
                MinMaxPlayer::Max => 'X',
                MinMaxPlayer::Min => 'O',
            }),
    {
        match self {
            MinMaxPlayer::Max => 'X',
            MinMaxPlayer::Min => 'O',
        }
    }
}

/// Handing the turn over twice gives it back to the same player.
pub proof fn lemma_opponent_involutive(p: MinMaxPlayer)
    ensures
        opponent_of(opponent_of(p)) == p,
        opponent_of(p) != p,
{
}

} // verus!
