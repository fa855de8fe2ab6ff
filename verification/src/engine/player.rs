use vstd::prelude::*;

verus! {

/// A player of Connect Four: `Red` or `White`; the game alternates turns
/// between them.
#[derive(Debug, Clone, Copy, PartialEq, Eq, Structural)]
pub enum Player {
    Red,
    White,
}

impl Player {
    /// Returns the opponent of this player.
    pub fn opponent(self) -> (p: Self)
        ensures
            p == (match self {
                Player::Red => Player::White,
                Player::White => Player::Red,
            }),
    {
        match self {
            Player::Red => Player::White,
            Player::White => Player::Red,
        }
    }

    /// Returns the character shown for this player on the board: `'R'` for
    /// red, `'W'` for white.
    pub fn symbol(self) -> (c: char)
        ensures
            c == (match self {
                Player::Red => 'R',
                Player::White => 'W',
            }),
    {
        match self {
            Player::Red => 'R',
            Player::White => 'W',
        }
    }
}

} // verus!
