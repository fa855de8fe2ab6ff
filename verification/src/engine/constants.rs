use vstd::prelude::*;

verus! {

/// Number of columns of the board.
pub const BOARD_WIDTH: u8 = 7;

/// Number of rows of the board.
pub const BOARD_HEIGHT: u8 = 6;

/// Distance in bits between two neighbouring columns of a bitboard: one more
/// than the height, so that a free bit separates the columns.
pub const COL_STRIDE: u8 = 7;

} // verus!
