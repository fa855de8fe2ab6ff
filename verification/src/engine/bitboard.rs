//! One player's pieces on a Connect Four board, as a 64-bit integer.
use vstd::prelude::*;
use crate::engine::constants::{BOARD_HEIGHT, BOARD_WIDTH, COL_STRIDE};
use crate::engine::text::{grid_text, row_line, row_lines, push_border, push_char, push_index_line};

verus! {

/// Whether bit `i` of `b` is set.
pub open spec fn bit_set(b: u64, i: int) -> bool {
    0 <= i < 64 && (b >> (i as u64)) & 1 == 1
}

/// The bit that stands for the cell in column `col` and row `row`.
pub open spec fn cell_bit(col: int, row: int) -> int {
    col * COL_STRIDE + row
}

/// Bits `start`, `start + step`, `start + 2 * step` and `start + 3 * step` of
/// `b` are all set.
pub open spec fn four_in_line(b: u64, start: int, step: int) -> bool {
    &&& bit_set(b, start)
    &&& bit_set(b, start + step)
    &&& bit_set(b, start + 2 * step)
    &&& bit_set(b, start + 3 * step)
}

/// The four steps between the bits of neighbouring cells on a line: up the
/// column, along the row, and along the two diagonals.
pub open spec fn is_line_step(step: int) -> bool {
    step == 1 || step == COL_STRIDE || step == COL_STRIDE - 1 || step == COL_STRIDE + 1
}

/// `b` holds four set bits in a line, one step apart.
pub open spec fn has_four_in_line(b: u64) -> bool {
    exists|start: int, step: int| is_line_step(step) && #[trigger] four_in_line(b, start, step)
}

/// Whether (`col`, `row`) is a cell of the board.
pub open spec fn on_board(col: int, row: int) -> bool {
    0 <= col < BOARD_WIDTH && 0 <= row < BOARD_HEIGHT
}

/// Whether bit `i` stands for a cell of the board: bit 6 of each column and
/// the bits past the last column stand for none.
pub open spec fn is_cell_bit(i: int) -> bool {
    0 <= i < BOARD_WIDTH * COL_STRIDE && i % (COL_STRIDE as int) != COL_STRIDE - 1
}

/// Every set bit of `b` stands for a cell of the board.
pub open spec fn only_cells(b: u64) -> bool {
    forall|i: int| #[trigger] bit_set(b, i) ==> is_cell_bit(i)
}

/// The four directions of a line on the grid, as (column, row) steps: up,
/// right, up-right and down-right.
pub open spec fn is_direction(dc: int, dr: int) -> bool {
    (dc == 0 && dr == 1) || (dc == 1 && dr == 0) || (dc == 1 && dr == 1) || (dc == 1 && dr == -1)
}

/// Whether the four cells from (`col`, `row`), `(dc, dr)` apart, are on the
/// board and all set in `b`.
pub open spec fn four_on_grid(b: u64, col: int, row: int, dc: int, dr: int) -> bool {
    &&& on_board(col, row) && bit_set(b, cell_bit(col, row))
    &&& on_board(col + dc, row + dr) && bit_set(b, cell_bit(col + dc, row + dr))
    &&& on_board(col + 2 * dc, row + 2 * dr) && bit_set(b, cell_bit(col + 2 * dc, row + 2 * dr))
    &&& on_board(col + 3 * dc, row + 3 * dr) && bit_set(b, cell_bit(col + 3 * dc, row + 3 * dr))
}

/// Four pieces of `b` lie in a line on the grid: in a column, a row or a diagonal.
pub open spec fn has_four_on_grid(b: u64) -> bool {
    exists|col: int, row: int, dc: int, dr: int| is_direction(dc, dr) && #[trigger] four_on_grid(b, col, row, dc, dr)
}

/// A cell bit, split into its column and row.
proof fn lemma_cell_of_bit(i: int)
    requires
        is_cell_bit(i),
    ensures
        on_board(i / COL_STRIDE as int, i % COL_STRIDE as int),
        i == cell_bit(i / COL_STRIDE as int, i % COL_STRIDE as int),
{
}

/// For a board whose bits are all cells, the bit patterns the win check looks
/// for are exactly four pieces in a line on the grid: bit 6 of each column
/// keeps a line of bits from running over into the next column.
pub proof fn lemma_four_in_line_on_grid(b: u64)
    requires
        only_cells(b),
    ensures
        has_four_in_line(b) <==> has_four_on_grid(b),
{
    if has_four_in_line(b) {
        let (start, step) = choose|start: int, step: int| is_line_step(step) && #[trigger] four_in_line(b, start, step);
        let i0 = start;
        let i1 = start + step;
        let i2 = start + 2 * step;
        let i3 = start + 3 * step;
        assert(bit_set(b, i0) && bit_set(b, i1) && bit_set(b, i2) && bit_set(b, i3));
        lemma_cell_of_bit(i0);
        lemma_cell_of_bit(i1);
        lemma_cell_of_bit(i2);
        lemma_cell_of_bit(i3);
        let c0 = i0 / 7;
        let r0 = i0 % 7;
        let c1 = i1 / 7;
        let r1 = i1 % 7;
        let c2 = i2 / 7;
        let r2 = i2 % 7;
        let c3 = i3 / 7;
        let r3 = i3 % 7;
        let (dc, dr) = if step == 1 {
            (0int, 1int)
        } else if step == 7 {
            (1int, 0int)
        } else if step == 8 {
            (1int, 1int)
        } else {
            (1int, -1int)
        };
        assert(c1 == c0 + dc && r1 == r0 + dr);
        assert(c2 == c1 + dc && r2 == r1 + dr);
        assert(c3 == c2 + dc && r3 == r2 + dr);
        assert(four_on_grid(b, c0, r0, dc, dr));
    }
    if has_four_on_grid(b) {
        let (col, row, dc, dr) = choose|col: int, row: int, dc: int, dr: int|
            is_direction(dc, dr) && #[trigger] four_on_grid(b, col, row, dc, dr);
        let step = COL_STRIDE * dc + dr;
        assert(is_line_step(step));
        assert(four_in_line(b, cell_bit(col, row), step));
    }
}

/// Bitboard of one player's pieces on a Connect Four board.
///
/// Bit `col * 7 + row` stands for the cell in column `col` and row `row`,
/// counted from the bottom left; bit 6 of each column is never a cell.
#[derive(Clone, Copy, PartialEq, Eq, Hash, Structural)]
pub struct BitBoard {
    bits: u64,
}

impl View for BitBoard {
    type V = u64;

    /// The 64-bit value of the board.
    closed spec fn view(&self) -> u64 {
        self.bits
    }
}

/// The lowest set bit of a non-zero `x`.
spec fn lowest_bit(x: u64) -> int
    decreases x,
{
    if x == 0 || x & 1 == 1 {
        0
    } else {
        proof {
            assert(x != 0 && x & 1 != 1 ==> x >> 1u64 < x) by (bit_vector);
        }
        1 + lowest_bit(x >> 1u64)
    }
}

/// A non-zero word has a set bit, and a word with a set bit is not zero.
proof fn lemma_nonzero_has_bit(x: u64)
    ensures
        x != 0 <==> exists|i: int| #[trigger] bit_set(x, i),
    decreases x,
{
    if x != 0 {
        lemma_lowest_bit_set(x);
    } else {
        assert forall|i: int| !#[trigger] bit_set(x, i) by {
            if 0 <= i < 64 {
                let k = i as u64;
                assert(x == 0 ==> (x >> k) & 1 == 0) by (bit_vector);
            }
        }
    }
}

/// The lowest bit of a non-zero word is set.
proof fn lemma_lowest_bit_set(x: u64)
    requires
        x != 0,
    ensures
        0 <= lowest_bit(x) < 64,
        bit_set(x, lowest_bit(x)),
    decreases x,
{
    if x & 1 == 1 {
        assert(x & 1 == 1 ==> (x >> 0u64) & 1 == 1) by (bit_vector);
    } else {
        assert(x != 0 && x & 1 != 1 ==> x >> 1u64 < x && x >> 1u64 != 0) by (bit_vector);
        let y = x >> 1u64;
        lemma_lowest_bit_set(y);
        let j = lowest_bit(y);
        assert(j < 63) by {
            if j == 63 {
                assert(((x >> 1u64) >> 63u64) & 1 == 0) by (bit_vector);
            }
        }
        let k = j as u64;
        assert(k < 63 ==> ((x >> 1u64) >> k) & 1 == (x >> (k + 1)) & 1) by (bit_vector);
    }
}

/// The bits of `pairs & (pairs >> 2 * step)`, with `pairs = b & (b >> step)`,
/// mark the starts of lines of four, for each line step.
proof fn lemma_line_bits(b: u64, i: int)
    requires
        0 <= i < 64,
    ensures
        bit_set((b & (b >> 1u64)) & ((b & (b >> 1u64)) >> 2u64), i) <==> four_in_line(b, i, 1),
        bit_set((b & (b >> 7u64)) & ((b & (b >> 7u64)) >> 14u64), i) <==> four_in_line(b, i, 7),
        bit_set((b & (b >> 6u64)) & ((b & (b >> 6u64)) >> 12u64), i) <==> four_in_line(b, i, 6),
        bit_set((b & (b >> 8u64)) & ((b & (b >> 8u64)) >> 16u64), i) <==> four_in_line(b, i, 8),
{
    let k = i as u64;
    assert(k < 64 ==> ((((b & (b >> 1u64)) & ((b & (b >> 1u64)) >> 2u64)) >> k) & 1 == 1 <==> (
    b >> k) & 1 == 1 && (k + 1 < 64 && (b >> (k + 1)) & 1 == 1) && (k + 2 < 64 && (b >> (k + 2))
        & 1 == 1) && (k + 3 < 64 && (b >> (k + 3)) & 1 == 1))) by (bit_vector);
    assert(k < 64 ==> ((((b & (b >> 7u64)) & ((b & (b >> 7u64)) >> 14u64)) >> k) & 1 == 1 <==> (
    b >> k) & 1 == 1 && (k + 7 < 64 && (b >> (k + 7)) & 1 == 1) && (k + 14 < 64 && (b >> (k
        + 14)) & 1 == 1) && (k + 21 < 64 && (b >> (k + 21)) & 1 == 1))) by (bit_vector);
    assert(k < 64 ==> ((((b & (b >> 6u64)) & ((b & (b >> 6u64)) >> 12u64)) >> k) & 1 == 1 <==> (
    b >> k) & 1 == 1 && (k + 6 < 64 && (b >> (k + 6)) & 1 == 1) && (k + 12 < 64 && (b >> (k
        + 12)) & 1 == 1) && (k + 18 < 64 && (b >> (k + 18)) & 1 == 1))) by (bit_vector);
    assert(k < 64 ==> ((((b & (b >> 8u64)) & ((b & (b >> 8u64)) >> 16u64)) >> k) & 1 == 1 <==> (
    b >> k) & 1 == 1 && (k + 8 < 64 && (b >> (k + 8)) & 1 == 1) && (k + 16 < 64 && (b >> (k
        + 16)) & 1 == 1) && (k + 24 < 64 && (b >> (k + 24)) & 1 == 1))) by (bit_vector);
}

/// The word computed for `step` by the win check is non-zero exactly when a
/// line of four with that step exists.
proof fn lemma_line_word(b: u64, step: u64, q: u64)
    requires
        step == 1 || step == 7 || step == 6 || step == 8,
        q == (b & (b >> step)) & ((b & (b >> step)) >> (2 * step)),
    ensures
        q != 0 <==> exists|i: int| #[trigger] four_in_line(b, i, step as int),
{
    lemma_nonzero_has_bit(q);
    if q != 0 {
        let i = choose|i: int| #[trigger] bit_set(q, i);
        lemma_line_bits(b, i);
    }
    assert forall|i: int| #[trigger] four_in_line(b, i, step as int) implies q != 0 by {
        lemma_line_bits(b, i);
        assert(bit_set(q, i));
    }
}

impl BitBoard {
    /// The board with no bit set.
    pub closed spec fn empty_spec() -> BitBoard {
        BitBoard { bits: 0 }
    }

    /// The empty board has value 0.
    pub proof fn lemma_empty_spec()
        ensures
            Self::empty_spec()@ == 0,
    {
    }

    /// This board with bit `bit` set as well.
    pub closed spec fn with_bit(self, bit: int) -> BitBoard {
        BitBoard { bits: self.bits | (1u64 << (bit as u64)) }
    }

    /// Setting bit `bit` of a board sets that bit and keeps every other one.
    pub proof fn lemma_with_bit(self, bit: int)
        requires
            0 <= bit < 64,
        ensures
            self.with_bit(bit)@ == self@ | (1u64 << (bit as u64)),
            forall|i: int| #[trigger] bit_set(self.with_bit(bit)@, i) <==> (bit_set(self@, i) || i == bit),
    {
        let old_bits = self.bits;
        let b8 = bit as u64;
        assert forall|i: int| #[trigger] bit_set(self.with_bit(bit)@, i) <==> (bit_set(old_bits, i) || i == bit) by {
            if 0 <= i < 64 {
                let k = i as u64;
                assert(b8 < 64 && k < 64 ==> (((old_bits | (1u64 << b8)) >> k) & 1 == 1 <==> ((old_bits >> k) & 1 == 1 || k == b8))) by (bit_vector);
            }
        }
    }

    /// Returns an empty bitboard with no bits set.
    pub fn empty() -> (b: Self)
        ensures
            b@ == 0,
            b == Self::empty_spec(),
    {
        BitBoard { bits: 0u64 }
    }

    /// Checks whether this bitboard holds four pieces in a row: four set bits
    /// one step apart, for the steps up a column (1), along a row (7) and
    /// along the two diagonals (6 and 8).
    ///
    /// For each step the board is shifted and ANDed with itself, which marks
    /// the starts of pairs, and the pairs are combined in the same way.
    pub fn has_won(&self) -> (won: bool)
        ensures
            won == has_four_in_line(self@),
    {
        let directions: [u64; 4] = [1, 7, 6, 8];
        let mut k: usize = 0;
        while k < 4
            invariant
                0 <= k <= 4,
                directions@ == seq![1u64, 7u64, 6u64, 8u64],
                forall|j: int, start: int|
                    0 <= j < k ==> !#[trigger] four_in_line(self.bits, start, directions@[j] as int),
            decreases 4 - k,
        {
            let shift = directions[k];
            let pairs = self.bits & (self.bits >> shift);
            let q = pairs & (pairs >> (2 * shift));
            proof {
                lemma_line_word(self.bits, shift, q);
            }
            if q != 0 {
                return true;
            }
            k += 1;
        }
        assert forall|start: int, step: int|
            is_line_step(step) implies !#[trigger] four_in_line(self.bits, start, step) by {
            if step == 1 {
                assert(directions@[0] == 1);
            } else if step == 7 {
                assert(directions@[1] == 7);
            } else if step == 6 {
                assert(directions@[2] == 6);
            } else {
                assert(directions@[3] == 8);
            }
        }
        false
    }

    /// The value of the bitboard.
    pub fn bits(&self) -> (r: u64)
        ensures
            r == self@,
    {
        self.bits
    }

    /// Sets the bit at the given bit index.
    pub fn with_bit_set(&mut self, bit: u8)
        requires
            bit < 64,
        ensures
            final(self)@ == old(self)@ | (1u64 << bit),
            *final(self) == old(self).with_bit(bit as int),
            forall|i: int| #[trigger] bit_set(final(self)@, i) <==> (bit_set(old(self)@, i) || i == bit),
    {
        proof {
            self.lemma_with_bit(bit as int);
        }
        self.bits = self.bits | (1u64 << bit);
    }

    /// Checks if the bit of the cell at column `col`, row `row` is set.
    pub fn bit_at(&self, col: u8, row: u8) -> (set: bool)
        requires
            col < BOARD_WIDTH,
            row < BOARD_HEIGHT,
        ensures
            set == bit_set(self@, cell_bit(col as int, row as int)),
    {
        let idx = Self::bit_index(col, row);
        let set = (self.bits & (1u64 << idx)) != 0;
        proof {
            let k = idx as u64;
            let b = self.bits;
            assert(k < 64 ==> ((b & (1u64 << k)) != 0 <==> (b >> k) & 1 == 1)) by (bit_vector);
        }
        set
    }

    /// The bit index of the cell at column `col`, row `row`.
    pub fn bit_index(col: u8, row: u8) -> (idx: u8)
        requires
            col < BOARD_WIDTH,
            row < BOARD_HEIGHT,
        ensures
            idx == cell_bit(col as int, row as int),
            idx < 49,
    {
        col * COL_STRIDE + row
    }

    /// How cell (`col`, `row`) of this board is shown: `'X'` for a piece,
    /// `'.'` for an empty cell.
    pub open spec fn cell_char(&self, col: int, row: int) -> char {
        if bit_set(self@, cell_bit(col, row)) {
            'X'
        } else {
            '.'
        }
    }

    /// The board as an ASCII Connect Four grid, top row first:
    ///
    /// ```text
    /// +-------+
    /// |.......|
    /// |.......|
    /// |.......|
    /// |.......|
    /// |.......|
    /// |XXX....|
    /// +-------+
    ///  0123456
    /// ```
    pub fn ascii_grid(&self) -> (s: String)
        ensures
            s@ == grid_text(|col: int, row: int| self.cell_char(col, row)),
    {
        let ghost cell = |col: int, row: int| self.cell_char(col, row);
        let mut s = String::new();
        push_border(&mut s);
        let mut k: u8 = 0;
        while k < BOARD_HEIGHT
            invariant
                k <= BOARD_HEIGHT,
                cell == (|col: int, row: int| self.cell_char(col, row)),
                s@ == crate::engine::text::border_line() + row_lines(cell, k as nat),
            decreases BOARD_HEIGHT - k,
        {
            let row = BOARD_HEIGHT - 1 - k;
            let ghost before = s@;
            push_char(&mut s, '|');
            let mut col: u8 = 0;
            while col < BOARD_WIDTH
                invariant
                    col <= BOARD_WIDTH,
                    row < BOARD_HEIGHT,
                    cell == (|col: int, row: int| self.cell_char(col, row)),
                    s@ == before + seq!['|'] + Seq::new(col as nat, |c: int| cell(c, row as int)),
                decreases BOARD_WIDTH - col,
            {
                let occupied = self.bit_at(col, row);
                let ch = if occupied {
                    'X'
                } else {
                    '.'
                };
                push_char(&mut s, ch);
                col += 1;
                assert(s@ =~= before + seq!['|'] + Seq::new(col as nat, |c: int| cell(c, row as int)));
            }
            push_char(&mut s, '|');
            push_char(&mut s, '\n');
            k += 1;
            assert(s@ =~= crate::engine::text::border_line() + row_lines(cell, k as nat));
        }
        push_border(&mut s);
        push_index_line(&mut s);
        s
    }
}

} // verus!
