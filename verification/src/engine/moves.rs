use vstd::prelude::*;
use crate::engine::constants::BOARD_WIDTH;

verus! {

/// A Connect Four move: the column (0-based) where a piece is dropped. The
/// row follows from the board (gravity).
#[derive(Debug, Copy, Clone, PartialEq, Eq, Structural)]
pub struct Move {
    pub column: u8,
}

/// Errors that can occur when creating a [`Move`].
#[derive(Debug)]
pub enum MoveError {
    ColumnOutOfBounds(u8),
}

impl Move {
    /// Creates a move into `column`, or `ColumnOutOfBounds` when the column is
    /// not in `[0, BOARD_WIDTH)`.
    pub fn new(column: u8) -> (r: Result<Self, MoveError>)
        ensures
            column < BOARD_WIDTH ==> r == Ok::<Move, MoveError>(Move { column }),
            column >= BOARD_WIDTH ==> (r matches Err(MoveError::ColumnOutOfBounds(c)) && c == column),
    {
        if column >= BOARD_WIDTH {
            return Err(MoveError::ColumnOutOfBounds(column));
        }
        Ok(Move { column })
    }

    /// Returns the column index of this move.
    pub fn column(&self) -> (c: u8)
        ensures
            c == self.column,
    {
        self.column
    }
}

} // verus!
