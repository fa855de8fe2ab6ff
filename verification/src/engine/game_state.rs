//! The Connect Four game state used by the search.
use vstd::prelude::*;
use vstd::array::spec_array_update;
use crate::ai::game_state::GameState;
use crate::ai::outcome::Outcome;
use crate::ai::player::{opponent_of, MinMaxPlayer, Player};
use crate::ai::value::{
    all_leaves_inside, all_well_played, child, leaves_inside, well_played,
};
use crate::engine::bitboard::{cell_bit, four_in_line, has_four_in_line, bit_set, BitBoard};
use crate::engine::constants::{BOARD_HEIGHT, BOARD_WIDTH};
use crate::engine::moves::Move;
use crate::engine::text::{
    border_line, decimal_text, grid_text, push_border, push_char, push_decimal, push_index_line,
    row_lines,
};
use vstd::string::StringExecFns;

verus! {

broadcast use vstd::array::group_array_axioms;

/// Version of the heuristic evaluation function used for a player.
///
/// - `V1` is the baseline: 0 for every state.
/// - `V2` scores every 4-cell window and its threats.
#[derive(Debug, Clone, Copy, Eq, PartialEq, Hash, Structural)]
pub enum HeuristicVersion {
    V1,
    V2,
}

/// Connect Four game state used by the search engine: the player to move,
/// a bitboard for each player's pieces, the number of pieces in each column,
/// and the heuristic each player evaluates positions with.
#[derive(Clone, Eq, PartialEq, Hash)]
pub struct ConnectFourState {
    /// Player whose turn it is to move.
    pub current_player: MinMaxPlayer,
    /// Bitboard of pieces for the maximizing player (Max).
    pub player1_board: BitBoard,
    /// Bitboard of pieces for the minimizing player (Min).
    pub player2_board: BitBoard,
    /// Number of pieces in each column.
    pub heights: [u8; 7],
    /// Heuristic of each player: index 0 for Max, index 1 for Min.
    pub player_heuristic: [HeuristicVersion; 2],
}

/// Errors that can occur when applying a move to the game state.
#[derive(Debug, Clone)]
pub enum MoveError {
    ColumnOutOfBounds(u8),
    ColumnFull(u8),
}

/// The order in which moves are tried: the centre first, then outwards.
pub const MOVE_ORDER: [u8; 7] = [3, 2, 4, 1, 5, 0, 6];

/// Score of a window with three pieces of one player and its empty cell
/// playable right away.
pub const THREE_IN_ROW_IMMEDIATE: i32 = 1000;

/// Score of a window with three pieces of one player and its empty cell not
/// yet playable.
pub const THREE_IN_ROW_FUTURE: i32 = 100;

/// Score of a window with two pieces of one player and two empty cells.
pub const TWO_IN_ROW_WEIGHT: i32 = 10;

/// Score of a window with one piece of one player and three empty cells.
pub const ONE_IN_ROW_WEIGHT: i32 = 1;

/// The columns of the first `k` entries of the move order that are not full
/// under `heights`, as moves.
pub open spec fn legal_prefix(heights: Seq<u8>, k: nat) -> Seq<Move>
    decreases k,
{
    if k == 0 {
        Seq::empty()
    } else {
        let col = MOVE_ORDER@[k - 1];
        let prev = legal_prefix(heights, (k - 1) as nat);
        if heights[col as int] < BOARD_HEIGHT {
            prev.push(Move { column: col })
        } else {
            prev
        }
    }
}

/// Index of the heuristic slot of player `p`.
pub open spec fn heuristic_slot(p: MinMaxPlayer) -> int {
    match p {
        MinMaxPlayer::Max => 0,
        MinMaxPlayer::Min => 1,
    }
}

/// The number of 4-cell windows on the board.
pub const WINDOW_COUNT: usize = 69;

/// Cell `o` (0 to 3) of window `k`, as (column, row). Windows `0..24` are
/// horizontal (row by row), `24..45` vertical (column by column), `45..57` go
/// down to the right from rows 5, 4 and 3, and `57..69` go up to the right
/// from rows 0, 1 and 2.
pub open spec fn window_cell(k: int, o: int) -> (int, int) {
    if k < 24 {
        (k % 4 + o, k / 4)
    } else if k < 45 {
        ((k - 24) / 3, (k - 24) % 3 + o)
    } else if k < 57 {
        ((k - 45) / 3 + o, 5 - (k - 45) % 3 - o)
    } else {
        ((k - 57) / 3 + o, (k - 57) % 3 + o)
    }
}

/// The sum of the column heights: the number of pieces played.
pub open spec fn total_height(h: Seq<u8>) -> int {
    h[0] + h[1] + h[2] + h[3] + h[4] + h[5] + h[6]
}

/// No column holds more than `BOARD_HEIGHT` pieces.
pub open spec fn heights_in_range(h: Seq<u8>) -> bool {
    h.len() == 7 && forall|c: int| 0 <= c < 7 ==> #[trigger] h[c] <= BOARD_HEIGHT
}

impl ConnectFourState {
    /// The empty board with `p` to move and both players on the baseline heuristic.
    pub open spec fn initial(p: MinMaxPlayer) -> Self {
        ConnectFourState {
            current_player: p,
            player1_board: BitBoard::empty_spec(),
            player2_board: BitBoard::empty_spec(),
            heights: [0u8, 0u8, 0u8, 0u8, 0u8, 0u8, 0u8],
            player_heuristic: [HeuristicVersion::V1, HeuristicVersion::V1],
        }
    }

    /// The board of player `p`.
    pub open spec fn board_of(&self, p: MinMaxPlayer) -> BitBoard {
        match p {
            MinMaxPlayer::Max => self.player1_board,
            MinMaxPlayer::Min => self.player2_board,
        }
    }

    /// Whether a piece can be dropped into column `col`.
    pub open spec fn column_open(&self, col: int) -> bool {
        0 <= col < BOARD_WIDTH && self.heights@[col] < BOARD_HEIGHT
    }

    /// The state after the player to move drops a piece into the open column `col`.
    pub open spec fn after_move(&self, col: u8) -> Self {
        let h = self.heights@[col as int];
        let bit = cell_bit(col as int, h as int);
        ConnectFourState {
            current_player: opponent_of(self.current_player),
            player1_board: if self.current_player == MinMaxPlayer::Max {
                self.player1_board.with_bit(bit)
            } else {
                self.player1_board
            },
            player2_board: if self.current_player == MinMaxPlayer::Min {
                self.player2_board.with_bit(bit)
            } else {
                self.player2_board
            },
            heights: spec_array_update(self.heights, col as int, (h + 1) as u8),
            player_heuristic: self.player_heuristic,
        }
    }

    /// The owner of the piece at (`col`, `row`), if any.
    pub open spec fn token_spec(&self, col: int, row: int) -> Option<MinMaxPlayer> {
        if bit_set(self.player1_board@, cell_bit(col, row)) {
            Some(MinMaxPlayer::Max)
        } else if bit_set(self.player2_board@, cell_bit(col, row)) {
            Some(MinMaxPlayer::Min)
        } else {
            None
        }
    }

    /// Counts of Max pieces, Min pieces and empty cells among the first `o`
    /// cells of window `k`.
    pub open spec fn window_counts_upto(&self, k: int, o: int) -> (int, int, int)
        decreases o,
    {
        if o <= 0 {
            (0, 0, 0)
        } else {
            let (a, b, e) = self.window_counts_upto(k, o - 1);
            let (c, r) = window_cell(k, o - 1);
            match self.token_spec(c, r) {
                Some(MinMaxPlayer::Max) => (a + 1, b, e),
                Some(MinMaxPlayer::Min) => (a, b + 1, e),
                None => (a, b, e + 1),
            }
        }
    }

    /// The last empty cell among the first `o` cells of window `k`.
    pub open spec fn window_empty_upto(&self, k: int, o: int) -> Option<(int, int)>
        decreases o,
    {
        if o <= 0 {
            None
        } else {
            let (c, r) = window_cell(k, o - 1);
            if self.token_spec(c, r) is None {
                Some((c, r))
            } else {
                self.window_empty_upto(k, o - 1)
            }
        }
    }

    /// Counts of Max pieces, Min pieces and empty cells in window `k`.
    pub open spec fn window_counts(&self, k: int) -> (int, int, int) {
        self.window_counts_upto(k, 4)
    }

    /// Whether the empty cell (`col`, `row`) can be played right away.
    pub open spec fn playable_spec(&self, col: int, row: int) -> bool {
        row == self.heights@[col]
    }

    /// The heuristic score of a window with the given counts and last empty cell.
    pub open spec fn window_score_spec(&self, counts: (int, int, int), empty_cell: Option<(int, int)>) -> int {
        let (mx, mn, e) = counts;
        if mx > 0 && mn > 0 {
            0
        } else if mx > 0 {
            if mx == 3 && e == 1 {
                match empty_cell {
                    Some((c, r)) => if self.playable_spec(c, r) {
                        THREE_IN_ROW_IMMEDIATE as int
                    } else {
                        THREE_IN_ROW_FUTURE as int
                    },
                    None => 0,
                }
            } else if mx == 2 && e == 2 {
                TWO_IN_ROW_WEIGHT as int
            } else if mx == 1 && e == 3 {
                ONE_IN_ROW_WEIGHT as int
            } else {
                0
            }
        } else if mn > 0 {
            if mn == 3 && e == 1 {
                match empty_cell {
                    Some((c, r)) => if self.playable_spec(c, r) {
                        -THREE_IN_ROW_IMMEDIATE
                    } else {
                        -THREE_IN_ROW_FUTURE
                    },
                    None => 0,
                }
            } else if mn == 2 && e == 2 {
                -TWO_IN_ROW_WEIGHT
            } else if mn == 1 && e == 3 {
                -ONE_IN_ROW_WEIGHT
            } else {
                0
            }
        } else {
            0
        }
    }

    /// The heuristic score of window `k`.
    pub open spec fn window_value(&self, k: int) -> int {
        self.window_score_spec(self.window_counts(k), self.window_empty_upto(k, 4))
    }

    /// Sum of the scores of the first `n` windows.
    pub open spec fn windows_sum(&self, n: int) -> int
        decreases n,
    {
        if n <= 0 {
            0
        } else {
            self.windows_sum(n - 1) + self.window_value(n - 1)
        }
    }

    /// The improved heuristic: the sum of the scores of all 69 windows.
    pub open spec fn heuristic_v2_spec(&self) -> int {
        self.windows_sum(WINDOW_COUNT as int)
    }

    /// The heuristic of the player to move.
    pub open spec fn heuristic_spec(&self) -> int {
        match self.player_heuristic@[heuristic_slot(self.current_player)] {
            HeuristicVersion::V1 => 0,
            HeuristicVersion::V2 => self.heuristic_v2_spec(),
        }
    }
}

/// The moves of the first `k` entries of the move order are open columns.
pub proof fn lemma_legal_prefix(heights: Seq<u8>, k: nat)
    requires
        k <= 7,
        heights.len() == 7,
    ensures
        legal_prefix(heights, k).len() <= k,
        forall|i: int|
            0 <= i < legal_prefix(heights, k).len() ==> {
                let c = (#[trigger] legal_prefix(heights, k)[i]).column;
                c < BOARD_WIDTH && heights[c as int] < BOARD_HEIGHT
            },
    decreases k,
{
    assert(MOVE_ORDER@ =~= seq![3u8, 2u8, 4u8, 1u8, 5u8, 0u8, 6u8]);
    if k > 0 {
        lemma_legal_prefix(heights, (k - 1) as nat);
    }
}

/// Cell `o` of window `k`, as (column, row).
fn window_cell_at(k: usize, o: u8) -> (cell: (u8, u8))
    requires
        k < WINDOW_COUNT,
        o < 4,
    ensures
        cell.0 as int == window_cell(k as int, o as int).0,
        cell.1 as int == window_cell(k as int, o as int).1,
        cell.0 < BOARD_WIDTH,
        cell.1 < BOARD_HEIGHT,
{
    if k < 24 {
        ((k % 4) as u8 + o, (k / 4) as u8)
    } else if k < 45 {
        let j = k - 24;
        ((j / 3) as u8, (j % 3) as u8 + o)
    } else if k < 57 {
        let j = k - 45;
        ((j / 3) as u8 + o, (5 - j % 3) as u8 - o)
    } else {
        let j = k - 57;
        ((j / 3) as u8 + o, (j % 3) as u8 + o)
    }
}

/// A window's score is at most `THREE_IN_ROW_IMMEDIATE` in size.
proof fn lemma_window_value_bound(s: ConnectFourState, k: int)
    ensures
        -THREE_IN_ROW_IMMEDIATE <= s.window_value(k) <= THREE_IN_ROW_IMMEDIATE,
{
}

/// The sum of the first `n` window scores is at most `n` times
/// `THREE_IN_ROW_IMMEDIATE` in size.
proof fn lemma_windows_sum_bound(s: ConnectFourState, n: int)
    requires
        n >= 0,
    ensures
        -THREE_IN_ROW_IMMEDIATE * n <= s.windows_sum(n) <= THREE_IN_ROW_IMMEDIATE * n,
    decreases n,
{
    if n > 0 {
        lemma_windows_sum_bound(s, n - 1);
        lemma_window_value_bound(s, n - 1);
    }
}

/// Every heuristic value lies between -69000 and 69000.
pub proof fn lemma_heuristic_bound(s: ConnectFourState)
    ensures
        -69000 <= s.heuristic_spec() <= 69000,
{
    lemma_windows_sum_bound(s, WINDOW_COUNT as int);
}

impl ConnectFourState {
    /// Creates an empty board with `starting_player` to move; both players
    /// use the baseline heuristic.
    pub fn new(starting_player: MinMaxPlayer) -> (s: Self)
        ensures
            s == Self::initial(starting_player),
            s.current_player == starting_player,
            s.player1_board@ == 0,
            s.player2_board@ == 0,
            s.heights@ == seq![0u8, 0u8, 0u8, 0u8, 0u8, 0u8, 0u8],
            s.player_heuristic@ == seq![HeuristicVersion::V1, HeuristicVersion::V1],
    {
        let s = ConnectFourState {
            current_player: starting_player,
            player1_board: BitBoard::empty(),
            player2_board: BitBoard::empty(),
            heights: [0, 0, 0, 0, 0, 0, 0],
            player_heuristic: [HeuristicVersion::V1, HeuristicVersion::V1],
        };
        assert(s.heights@ =~= seq![0u8, 0u8, 0u8, 0u8, 0u8, 0u8, 0u8]);
        assert(s.player_heuristic@ =~= seq![HeuristicVersion::V1, HeuristicVersion::V1]);
        assert(s.heights =~= Self::initial(starting_player).heights);
        assert(s.player_heuristic =~= Self::initial(starting_player).player_heuristic);
        s
    }

    /// Returns `true` if no legal move remains. Wins are not looked at here.
    pub fn is_draw(&self) -> (draw: bool)
        ensures
            draw == (legal_prefix(self.heights@, 7).len() == 0),
    {
        self.legal_moves().is_empty()
    }

    /// Returns `true` if a piece can be dropped into column `col`: it is on
    /// the board and not full.
    pub fn is_column_legal(&self, col: u8) -> (legal: bool)
        ensures
            legal == self.column_open(col as int),
    {
        col < BOARD_WIDTH && self.heights[col as usize] < BOARD_HEIGHT
    }

    /// Returns `true` if the empty cell (`col`, `row`) is the next one to be
    /// filled in its column.
    fn is_playable(&self, col: u8, row: u8) -> (p: bool)
        requires
            col < BOARD_WIDTH,
        ensures
            p == self.playable_spec(col as int, row as int),
    {
        let h = self.heights[col as usize];
        row == h
    }

    /// Returns which player, if any, has a piece at (`col`, `row`).
    pub fn token_at(&self, col: u8, row: u8) -> (t: Option<MinMaxPlayer>)
        requires
            col < BOARD_WIDTH,
            row < BOARD_HEIGHT,
        ensures
            t == self.token_spec(col as int, row as int),
    {
        if self.player1_board.bit_at(col, row) {
            Some(MinMaxPlayer::Max)
        } else if self.player2_board.bit_at(col, row) {
            Some(MinMaxPlayer::Min)
        } else {
            None
        }
    }

    /// Sets the heuristic that `player` evaluates positions with.
    pub fn set_player_heuristic(&mut self, player: MinMaxPlayer, heuristic_version: HeuristicVersion)
        ensures
            final(self).player_heuristic@ == old(self).player_heuristic@.update(
                heuristic_slot(player),
                heuristic_version,
            ),
            final(self).current_player == old(self).current_player,
            final(self).player1_board == old(self).player1_board,
            final(self).player2_board == old(self).player2_board,
            final(self).heights == old(self).heights,
    {
        let ind: usize = match player {
            MinMaxPlayer::Max => 0,
            MinMaxPlayer::Min => 1,
        };
        self.player_heuristic[ind] = heuristic_version;
    }

    /// The heuristic value of this state for the player to move.
    pub fn heuristic_score(&self) -> (h: i32)
        ensures
            h == self.heuristic_spec(),
    {
        let ind: usize = match self.current_player {
            MinMaxPlayer::Max => 0,
            MinMaxPlayer::Min => 1,
        };
        match self.player_heuristic[ind] {
            HeuristicVersion::V1 => self.heuristic_v1(),
            HeuristicVersion::V2 => self.heuristic_v2(),
        }
    }

    /// Baseline heuristic: every state evaluates to 0.
    pub fn heuristic_v1(&self) -> (h: i32)
        ensures
            h == 0,
    {
        0
    }

    /// Improved heuristic: the sum of the scores of the 69 horizontal,
    /// vertical and diagonal 4-cell windows.
    pub fn heuristic_v2(&self) -> (h: i32)
        ensures
            h == self.heuristic_v2_spec(),
    {
        let mut score: i32 = 0;
        let mut k: usize = 0;
        while k < WINDOW_COUNT
            invariant
                k <= WINDOW_COUNT,
                score == self.windows_sum(k as int),
                -1000 * k <= score <= 1000 * k,
            decreases WINDOW_COUNT - k,
        {
            let (counts, empty_cell) = self.count_window(k);
            let window_score = self.score_window(counts, empty_cell);
            proof {
                lemma_window_value_bound(*self, k as int);
                assert(window_score == self.window_value(k as int));
            }
            score += window_score;
            k += 1;
        }
        score
    }

    /// Counts Max pieces, Min pieces and empty cells in window `k`, and
    /// returns the last empty cell, if any.
    pub fn count_window(&self, k: usize) -> (r: ((u16, u16, u16), Option<(u8, u8)>))
        requires
            k < WINDOW_COUNT,
        ensures
            r.0.0 == self.window_counts(k as int).0,
            r.0.1 == self.window_counts(k as int).1,
            r.0.2 == self.window_counts(k as int).2,
            r.0.0 + r.0.1 + r.0.2 == 4,
            r.1 matches Some((c, row)) ==> c < BOARD_WIDTH && self.window_empty_upto(k as int, 4)
                == Some((c as int, row as int)),
            r.1 is None ==> self.window_empty_upto(k as int, 4) is None,
    {
        let mut counts: (u16, u16, u16) = (0, 0, 0);
        let mut empty_cell: Option<(u8, u8)> = None;
        let mut offset: u8 = 0;
        while offset < 4
            invariant
                offset <= 4,
                k < WINDOW_COUNT,
                counts.0 == self.window_counts_upto(k as int, offset as int).0,
                counts.1 == self.window_counts_upto(k as int, offset as int).1,
                counts.2 == self.window_counts_upto(k as int, offset as int).2,
                counts.0 + counts.1 + counts.2 == offset,
                empty_cell matches Some((c, row)) ==> c < BOARD_WIDTH && self.window_empty_upto(
                    k as int,
                    offset as int,
                ) == Some((c as int, row as int)),
                empty_cell is None ==> self.window_empty_upto(k as int, offset as int) is None,
            decreases 4 - offset,
        {
            let (x, y) = window_cell_at(k, offset);
            match self.token_at(x, y) {
                Some(MinMaxPlayer::Max) => counts.0 = counts.0 + 1,
                Some(MinMaxPlayer::Min) => counts.1 = counts.1 + 1,
                None => {
                    counts.2 = counts.2 + 1;
                    empty_cell = Some((x, y));
                },
            }
            offset += 1;
        }
        (counts, empty_cell)
    }

    /// The heuristic score of one window from its counts `(max, min, empty)`
    /// and its last empty cell: 0 for a window holding both players'
    /// pieces; for a window of one player, a weight for one, two or three
    /// pieces, signed for that player, where three pieces score higher when
    /// the empty cell can be played right away.
    fn score_window(&self, counts: (u16, u16, u16), empty_cell: Option<(u8, u8)>) -> (score: i32)
        requires
            empty_cell matches Some((c, r)) ==> c < BOARD_WIDTH,
        ensures
            score == self.window_score_spec(
                (counts.0 as int, counts.1 as int, counts.2 as int),
                match empty_cell {
                    Some((c, r)) => Some((c as int, r as int)),
                    None => None,
                },
            ),
    {
        let (max_count, min_count, empty) = counts;
        if max_count > 0 && min_count > 0 {
            return 0;
        }
        let mut score: i32 = 0;
        if max_count > 0 && min_count == 0 {
            if max_count == 3 && empty == 1 {
                if let Some((col, row)) = empty_cell {
                    if self.is_playable(col, row) {
                        score += THREE_IN_ROW_IMMEDIATE;
                    } else {
                        score += THREE_IN_ROW_FUTURE;
                    }
                }
            } else if max_count == 2 && empty == 2 {
                score += TWO_IN_ROW_WEIGHT;
            } else if max_count == 1 && empty == 3 {
                score += ONE_IN_ROW_WEIGHT;
            }
        } else if min_count > 0 && max_count == 0 {
            if min_count == 3 && empty == 1 {
                if let Some((col, row)) = empty_cell {
                    if self.is_playable(col, row) {
                        score -= THREE_IN_ROW_IMMEDIATE;
                    } else {
                        score -= THREE_IN_ROW_FUTURE;
                    }
                }
            } else if min_count == 2 && empty == 2 {
                score -= TWO_IN_ROW_WEIGHT;
            } else if min_count == 1 && empty == 3 {
                score -= ONE_IN_ROW_WEIGHT;
            }
        }
        score
    }

    /// The counts `(max, min, empty)` of every 4-cell window, in window order.
    pub fn collect_four_in_rows(&self) -> (windows: Vec<(u16, u16, u16)>)
        ensures
            windows@.len() == WINDOW_COUNT,
            forall|k: int|
                0 <= k < WINDOW_COUNT ==> {
                    &&& (#[trigger] windows@[k]).0 == self.window_counts(k).0
                    &&& windows@[k].1 == self.window_counts(k).1
                    &&& windows@[k].2 == self.window_counts(k).2
                },
    {
        let mut windows: Vec<(u16, u16, u16)> = Vec::new();
        let mut k: usize = 0;
        while k < WINDOW_COUNT
            invariant
                k <= WINDOW_COUNT,
                windows@.len() == k,
                forall|j: int|
                    0 <= j < k ==> {
                        &&& (#[trigger] windows@[j]).0 == self.window_counts(j).0
                        &&& windows@[j].1 == self.window_counts(j).1
                        &&& windows@[j].2 == self.window_counts(j).2
                    },
            decreases WINDOW_COUNT - k,
        {
            let (counts, _) = self.count_window(k);
            windows.push(counts);
            k += 1;
        }
        windows
    }
}

impl GameState for ConnectFourState {
    type Move = Move;

    type MoveError = MoveError;

    open spec fn player_spec(&self) -> MinMaxPlayer {
        self.current_player
    }

    open spec fn legal_moves_spec(&self) -> Seq<Move> {
        legal_prefix(self.heights@, 7)
    }

    open spec fn with_move_spec(&self, mv: Move) -> Result<Self, MoveError> {
        if self.column_open(mv.column as int) {
            Ok(self.after_move(mv.column))
        } else {
            Err(MoveError::ColumnFull(mv.column))
        }
    }

    open spec fn outcome_spec(&self) -> Option<Outcome> {
        let previous = opponent_of(self.current_player);
        if has_four_in_line(self.board_of(previous)@) {
            Some(Outcome::Win(previous))
        } else if legal_prefix(self.heights@, 7).len() == 0 {
            Some(Outcome::Draw)
        } else {
            None
        }
    }

    open spec fn evaluate_spec(&self) -> i32 {
        self.heuristic_spec() as i32
    }

    fn current_player(&self) -> (p: MinMaxPlayer) {
        self.current_player
    }

    /// Returns the columns that are not full, as moves, in the order
    /// `MOVE_ORDER`: from the centre outwards, which helps pruning.
    fn legal_moves(&self) -> (moves: Vec<Move>) {
        let mut moves: Vec<Move> = Vec::new();
        let mut k: usize = 0;
        proof {
            assert(MOVE_ORDER@ =~= seq![3u8, 2u8, 4u8, 1u8, 5u8, 0u8, 6u8]);
        }
        while k < 7
            invariant
                k <= 7,
                MOVE_ORDER@ == seq![3u8, 2u8, 4u8, 1u8, 5u8, 0u8, 6u8],
                moves@ == legal_prefix(self.heights@, k as nat),
            decreases 7 - k,
        {
            let col = MOVE_ORDER[k];
            if self.heights[col as usize] < BOARD_HEIGHT {
                moves.push(Move { column: col });
            }
            k += 1;
        }
        moves
    }

    /// Drops a piece of the player to move into the column of `mv`, at the
    /// row given by the column's height, and hands the turn over; a full or
    /// missing column gives `ColumnFull`.
    fn with_move(&self, mv: &Move) -> (r: Result<Self, MoveError>) {
        let col = mv.column() as usize;
        if self.is_column_legal(mv.column()) == false {
            return Err(MoveError::ColumnFull(mv.column()));
        }
        let mut heights = self.heights;
        heights[col] += 1;
        let bit_index = BitBoard::bit_index(mv.column(), self.heights[col]);
        let (updated_player1, updated_player2) = match self.current_player {
            MinMaxPlayer::Max => {
                let mut player1 = self.player1_board;
                player1.with_bit_set(bit_index);
                (player1, self.player2_board)
            },
            MinMaxPlayer::Min => {
                let mut player2 = self.player2_board;
                player2.with_bit_set(bit_index);
                (self.player1_board, player2)
            },
        };
        let next = ConnectFourState {
            current_player: self.current_player.opponent(),
            player1_board: updated_player1,
            player2_board: updated_player2,
            heights,
            player_heuristic: self.player_heuristic,
        };
        assert(next.heights =~= spec_array_update(
            self.heights,
            col as int,
            (self.heights@[col as int] + 1) as u8,
        ));
        Ok(next)
    }

    /// The outcome if the game is over: a win for the player who moved
    /// last if they have four in a row, a draw when no move is left, and
    /// `None` otherwise.
    fn outcome(&self) -> (o: Option<Outcome>) {
        let previous_player = self.current_player.opponent();
        let previous_board = match previous_player {
            MinMaxPlayer::Max => &self.player1_board,
            MinMaxPlayer::Min => &self.player2_board,
        };
        if previous_board.has_won() {
            return Some(Outcome::Win(previous_player));
        }
        if self.is_draw() {
            return Some(Outcome::Draw);
        }
        None
    }

    /// The heuristic of the player to move, from `Max`'s point of view.
    fn evaluate(&self) -> (e: i32) {
        proof {
            lemma_heuristic_bound(*self);
        }
        self.heuristic_score()
    }
}

/// The name of player `p` as the picture of a state shows it.
pub open spec fn player_name(p: MinMaxPlayer) -> Seq<char> {
    match p {
        MinMaxPlayer::Max => seq!['M', 'a', 'x'],
        MinMaxPlayer::Min => seq!['M', 'i', 'n'],
    }
}

impl ConnectFourState {
    /// How cell (`col`, `row`) is shown: the symbol of the player whose
    /// piece is there (`'X'` for Max, `'O'` for Min), or `'.'`.
    pub open spec fn cell_char(&self, col: int, row: int) -> char {
        match self.token_spec(col, row) {
            Some(MinMaxPlayer::Max) => 'X',
            Some(MinMaxPlayer::Min) => 'O',
            None => '.',
        }
    }

    /// The picture of this state: the board grid, then the player to move
    /// and the heuristic value.
    pub open spec fn text_spec(&self) -> Seq<char> {
        grid_text(|col: int, row: int| self.cell_char(col, row)) + seq![
            ' ',
            'T',
            'U',
            'R',
            'N',
            ':',
            ' ',
        ] + player_name(self.current_player) + seq!['\n'] + seq![
            ' ',
            'H',
            'E',
            'U',
            'R',
            'I',
            'S',
            'T',
            'I',
            'C',
            ':',
            ' ',
        ] + decimal_text(self.heuristic_spec()) + seq!['\n']
    }

    /// The state as ASCII: the board with `X` for Max and `O` for Min, top
    /// row first, then ` TURN: ` and the player to move, then ` HEURISTIC: `
    /// and the heuristic value.
    pub fn ascii_board(&self) -> (s: String)
        ensures
            s@ == self.text_spec(),
    {
        let ghost cell = |col: int, row: int| self.cell_char(col, row);
        let mut s = String::new();
        push_border(&mut s);
        let mut k: u8 = 0;
        while k < BOARD_HEIGHT
            invariant
                k <= BOARD_HEIGHT,
                cell == (|col: int, row: int| self.cell_char(col, row)),
                s@ == border_line() + row_lines(cell, k as nat),
            decreases BOARD_HEIGHT - k,
        {
            let row = BOARD_HEIGHT - 1 - k;
            let ghost before = s@;
            push_char(&mut s, '|');
            let mut col: u8 = 0;
            while col < BOARD_WIDTH
                invariant
                    col <= BOARD_WIDTH,
                    row < BOARD_HEIGHT,
                    cell == (|col: int, row: int| self.cell_char(col, row)),
                    s@ == before + seq!['|'] + Seq::new(col as nat, |c: int| cell(c, row as int)),
                decreases BOARD_WIDTH - col,
            {
                let ch = match self.token_at(col, row) {
                    Some(player) => player.symbol(),
                    None => '.',
                };
                push_char(&mut s, ch);
                col += 1;
                assert(s@ =~= before + seq!['|'] + Seq::new(col as nat, |c: int| cell(c, row as int)));
            }
            push_char(&mut s, '|');
            push_char(&mut s, '\n');
            k += 1;
            assert(s@ =~= border_line() + row_lines(cell, k as nat));
        }
        push_border(&mut s);
        push_index_line(&mut s);
        proof {
            reveal_strlit(" TURN: ");
            reveal_strlit("Max");
            reveal_strlit("Min");
            reveal_strlit("\n");
            reveal_strlit(" HEURISTIC: ");
        }
        s.append(" TURN: ");
        match self.current_player {
            MinMaxPlayer::Max => s.append("Max"),
            MinMaxPlayer::Min => s.append("Min"),
        }
        s.append("\n");
        s.append(" HEURISTIC: ");
        push_decimal(&mut s, self.heuristic_score());
        s.append("\n");
        assert(s@ =~= self.text_spec());
        s
    }
}

/// Every Connect Four state keeps the contract of [`GameState`] and has its
/// heuristic values inside the `i32` range, however deep it is searched.
pub proof fn lemma_connect_four_searchable(s: ConnectFourState, depth: nat)
    ensures
        well_played(s, depth),
        leaves_inside(s, depth),
    decreases depth, 0nat,
{
    lemma_heuristic_bound(s);
    if s.outcome_spec() is None && depth > 0 {
        let ms = s.legal_moves_spec();
        lemma_legal_prefix(s.heights@, 7);
        lemma_children_searchable(s, ms, (depth - 1) as nat);
    }
}

/// `lemma_connect_four_searchable` for the children reached by open columns.
proof fn lemma_children_searchable(s: ConnectFourState, moves: Seq<Move>, d: nat)
    requires
        forall|i: int| 0 <= i < moves.len() ==> s.column_open((#[trigger] moves[i]).column as int),
    ensures
        all_well_played(s, moves, d),
        all_leaves_inside(s, moves, d),
    decreases d, moves.len(),
{
    if moves.len() > 0 {
        assert(moves.last() == moves[moves.len() - 1]);
        assert forall|i: int| 0 <= i < moves.drop_last().len() implies s.column_open(
            (#[trigger] moves.drop_last()[i]).column as int,
        ) by {
            assert(moves.drop_last()[i] == moves[i]);
        }
        lemma_children_searchable(s, moves.drop_last(), d);
        lemma_connect_four_searchable(child(s, moves.last()), d);
    }
}

/// With every column full no move is legal.
pub proof fn lemma_full_board_has_no_moves(h: Seq<u8>, k: nat)
    requires
        h.len() == 7,
        k <= 7,
        forall|c: int| 0 <= c < 7 ==> #[trigger] h[c] >= BOARD_HEIGHT,
    ensures
        legal_prefix(h, k).len() == 0,
    decreases k,
{
    assert(MOVE_ORDER@ =~= seq![3u8, 2u8, 4u8, 1u8, 5u8, 0u8, 6u8]);
    if k > 0 {
        lemma_full_board_has_no_moves(h, (k - 1) as nat);
    }
}

/// A legal move adds one piece to one column, which stays in range; and a
/// state with 42 pieces in range has no legal move.
pub proof fn lemma_move_counts(s: ConnectFourState, m: Move)
    requires
        heights_in_range(s.heights@),
    ensures
        total_height(s.heights@) <= 42,
        total_height(s.heights@) == 42 ==> s.legal_moves_spec().len() == 0,
        s.with_move_spec(m) is Ok ==> {
            let n = s.with_move_spec(m)->Ok_0;
            &&& heights_in_range(n.heights@)
            &&& total_height(n.heights@) == total_height(s.heights@) + 1
            &&& n.player_heuristic == s.player_heuristic
        },
{
    if total_height(s.heights@) == 42 {
        lemma_full_board_has_no_moves(s.heights@, 7);
    }
    if s.with_move_spec(m) is Ok {
        let n = s.with_move_spec(m)->Ok_0;
        let c = m.column as int;
        assert(n.heights@ == s.heights@.update(c, (s.heights@[c] + 1) as u8));
    }
}

/// A game on the empty board is not over.
pub proof fn lemma_empty_board_not_over(s: ConnectFourState)
    requires
        s.player1_board@ == 0,
        s.player2_board@ == 0,
        s.heights@ == seq![0u8, 0u8, 0u8, 0u8, 0u8, 0u8, 0u8],
    ensures
        s.outcome_spec() is None,
{
    assert forall|start: int, step: int| !#[trigger] four_in_line(0u64, start, step) by {
        if 0 <= start < 64 {
            let k = start as u64;
            assert((0u64 >> k) & 1 == 0) by (bit_vector);
        }
    }
    assert(MOVE_ORDER@ =~= seq![3u8, 2u8, 4u8, 1u8, 5u8, 0u8, 6u8]);
    assert(legal_prefix(s.heights@, 0).len() == 0);
    assert(s.heights@[3] == 0u8);
    assert(legal_prefix(s.heights@, 1).len() == 1);
    lemma_legal_prefix_grows(s.heights@, 1, 7);
}

/// Legal moves of a longer prefix of the move order include those of a shorter one.
proof fn lemma_legal_prefix_grows(h: Seq<u8>, j: nat, k: nat)
    requires
        j <= k,
    ensures
        legal_prefix(h, j).len() <= legal_prefix(h, k).len(),
    decreases k,
{
    if j < k {
        lemma_legal_prefix_grows(h, j, (k - 1) as nat);
    }
}

/// The state with the two players' pieces exchanged.
pub open spec fn boards_exchanged(s: ConnectFourState) -> ConnectFourState {
    ConnectFourState { player1_board: s.player2_board, player2_board: s.player1_board, ..s }
}

/// Every cell of every window lies on the board.
proof fn lemma_window_cell_on_board(k: int, o: int)
    requires
        0 <= k < WINDOW_COUNT,
        0 <= o < 4,
    ensures
        0 <= window_cell(k, o).0 < BOARD_WIDTH,
        0 <= window_cell(k, o).1 < BOARD_HEIGHT,
{
}

/// Exchanging the boards exchanges the two players' counts in a window and
/// keeps its empty cells.
proof fn lemma_window_counts_exchanged(s: ConnectFourState, k: int, o: int)
    requires
        0 <= k < WINDOW_COUNT,
        0 <= o <= 4,
        forall|c: int, r: int|
            #![trigger cell_bit(c, r)]
            0 <= c < BOARD_WIDTH && 0 <= r < BOARD_HEIGHT ==> !(bit_set(s.player1_board@, cell_bit(c, r))
                && bit_set(s.player2_board@, cell_bit(c, r))),
    ensures
        boards_exchanged(s).window_counts_upto(k, o) == (
            s.window_counts_upto(k, o).1,
            s.window_counts_upto(k, o).0,
            s.window_counts_upto(k, o).2,
        ),
        boards_exchanged(s).window_empty_upto(k, o) == s.window_empty_upto(k, o),
    decreases o,
{
    if o > 0 {
        lemma_window_counts_exchanged(s, k, o - 1);
        lemma_window_cell_on_board(k, o - 1);
        let (c, r) = window_cell(k, o - 1);
        assert(!(bit_set(s.player1_board@, cell_bit(c, r)) && bit_set(s.player2_board@, cell_bit(c, r))));
    }
}

/// Exchanging the boards negates the sum of the first `n` window scores.
proof fn lemma_windows_sum_exchanged(s: ConnectFourState, n: int)
    requires
        0 <= n <= WINDOW_COUNT,
        forall|c: int, r: int|
            #![trigger cell_bit(c, r)]
            0 <= c < BOARD_WIDTH && 0 <= r < BOARD_HEIGHT ==> !(bit_set(s.player1_board@, cell_bit(c, r))
                && bit_set(s.player2_board@, cell_bit(c, r))),
    ensures
        boards_exchanged(s).windows_sum(n) == -s.windows_sum(n),
    decreases n,
{
    if n > 0 {
        lemma_windows_sum_exchanged(s, n - 1);
        lemma_window_counts_exchanged(s, n - 1, 4);
    }
}

/// The window heuristic is symmetric between the players: for a board where
/// no cell holds pieces of both, exchanging the two players' pieces negates
/// it.
pub proof fn lemma_heuristic_v2_symmetric(s: ConnectFourState)
    requires
        forall|c: int, r: int|
            #![trigger cell_bit(c, r)]
            0 <= c < BOARD_WIDTH && 0 <= r < BOARD_HEIGHT ==> !(bit_set(s.player1_board@, cell_bit(c, r))
                && bit_set(s.player2_board@, cell_bit(c, r))),
    ensures
        boards_exchanged(s).heuristic_v2_spec() == -s.heuristic_v2_spec(),
{
    lemma_windows_sum_exchanged(s, WINDOW_COUNT as int);
}

/// The moves of the first `k` entries of the move order are those of its open
/// columns among them, each once.
proof fn lemma_legal_prefix_members(h: Seq<u8>, k: nat)
    requires
        k <= 7,
        h.len() == 7,
        MOVE_ORDER@ == seq![3u8, 2u8, 4u8, 1u8, 5u8, 0u8, 6u8],
    ensures
        forall|c: u8| #[trigger] legal_prefix(h, k).contains(Move { column: c }) <==> (MOVE_ORDER@.take(k as int).contains(c) && c < 7 && h[c as int] < BOARD_HEIGHT),
        forall|i: int| 0 <= i < legal_prefix(h, k).len() ==> MOVE_ORDER@.take(k as int).contains(#[trigger] legal_prefix(h, k)[i].column),
        forall|i: int, j: int| 0 <= i < j < legal_prefix(h, k).len() ==> legal_prefix(h, k)[i] != legal_prefix(h, k)[j],
    decreases k,
{
    if k > 0 {
        lemma_legal_prefix_members(h, (k - 1) as nat);
        let prev = legal_prefix(h, (k - 1) as nat);
        let l = legal_prefix(h, k);
        let col = MOVE_ORDER@[k - 1];
        let before = MOVE_ORDER@.take(k - 1);
        let upto = MOVE_ORDER@.take(k as int);
        assert(upto =~= before.push(col));
        assert(!before.contains(col));
        assert forall|x: u8| before.contains(x) implies #[trigger] upto.contains(x) by {
            let j = choose|j: int| 0 <= j < before.len() && before[j] == x;
            assert(upto[j] == x);
        }
        assert(upto.contains(col)) by {
            assert(upto[k - 1] == col);
        }
        assert(forall|i: int| 0 <= i < prev.len() ==> l[i] == prev[i]);
        assert(l.len() == prev.len() || (l.len() == prev.len() + 1 && l[prev.len() as int] == Move { column: col } && col < 7 && h[col as int] < BOARD_HEIGHT));
        assert forall|i: int| 0 <= i < l.len() implies upto.contains(#[trigger] l[i].column) by {
            if i < prev.len() {
                assert(before.contains(prev[i].column));
            }
        }
        assert forall|c: u8| #[trigger] l.contains(Move { column: c }) <==> (upto.contains(c) && c < 7 && h[c as int] < BOARD_HEIGHT) by {
            if l.contains(Move { column: c }) {
                let i = choose|i: int| 0 <= i < l.len() && l[i] == Move { column: c };
                if i < prev.len() {
                    assert(prev.contains(Move { column: c }));
                    assert(before.contains(c));
                }
            }
            if upto.contains(c) && c < 7 && h[c as int] < BOARD_HEIGHT {
                if c == col {
                    assert(l[prev.len() as int] == Move { column: c });
                } else {
                    let j = choose|j: int| 0 <= j < upto.len() && upto[j] == c;
                    assert(j < k - 1);
                    assert(before[j] == c);
                    assert(before.contains(c));
                    assert(prev.contains(Move { column: c }));
                    let i = choose|i: int| 0 <= i < prev.len() && prev[i] == Move { column: c };
                    assert(l[i] == Move { column: c });
                }
            }
        }
        assert forall|i: int, j: int| 0 <= i < j < l.len() implies l[i] != l[j] by {
            if j >= prev.len() {
                assert(before.contains(prev[i].column));
            }
        }
    }
}

/// The legal moves are exactly the open columns (on the board and not full),
/// each listed once, in the move order: the centre column first, then
/// outwards.
pub proof fn lemma_legal_moves_are_open_columns(s: ConnectFourState)
    ensures
        forall|c: u8| #[trigger] s.legal_moves_spec().contains(Move { column: c }) <==> (c < BOARD_WIDTH
            && s.heights@[c as int] < BOARD_HEIGHT),
        forall|i: int, j: int|
            0 <= i < j < s.legal_moves_spec().len() ==> s.legal_moves_spec()[i] != s.legal_moves_spec()[j],
        forall|i: int, j: int|
            0 <= i < j < s.legal_moves_spec().len() ==> MOVE_ORDER@.index_of(s.legal_moves_spec()[i].column)
                < MOVE_ORDER@.index_of(s.legal_moves_spec()[j].column),
{
    assert(MOVE_ORDER@ =~= seq![3u8, 2u8, 4u8, 1u8, 5u8, 0u8, 6u8]);
    lemma_legal_prefix_members(s.heights@, 7);
    assert(MOVE_ORDER@.take(7) =~= MOVE_ORDER@);
    assert forall|c: u8| c < 7 implies MOVE_ORDER@.contains(c) by {
        if c == 3 { assert(MOVE_ORDER@[0] == c); }
        else if c == 2 { assert(MOVE_ORDER@[1] == c); }
        else if c == 4 { assert(MOVE_ORDER@[2] == c); }
        else if c == 1 { assert(MOVE_ORDER@[3] == c); }
        else if c == 5 { assert(MOVE_ORDER@[4] == c); }
        else if c == 0 { assert(MOVE_ORDER@[5] == c); }
        else { assert(MOVE_ORDER@[6] == c); }
    }
    lemma_legal_prefix_order(s.heights@, 7);
}

/// The moves of the first `k` entries of the move order come in that order.
proof fn lemma_legal_prefix_order(h: Seq<u8>, k: nat)
    requires
        k <= 7,
        h.len() == 7,
        MOVE_ORDER@ == seq![3u8, 2u8, 4u8, 1u8, 5u8, 0u8, 6u8],
    ensures
        forall|i: int| 0 <= i < legal_prefix(h, k).len() ==> MOVE_ORDER@.index_of(#[trigger] legal_prefix(h, k)[i].column) < k,
        forall|i: int, j: int|
            0 <= i < j < legal_prefix(h, k).len() ==> MOVE_ORDER@.index_of(legal_prefix(h, k)[i].column)
                < MOVE_ORDER@.index_of(legal_prefix(h, k)[j].column),
    decreases k,
{
    if k > 0 {
        lemma_legal_prefix_order(h, (k - 1) as nat);
        let col = MOVE_ORDER@[k - 1];
        assert(MOVE_ORDER@.index_of(col) == k - 1) by {
            MOVE_ORDER@.index_of_first_ensures(col);
            assert(MOVE_ORDER@.contains(col));
        }
        let prev = legal_prefix(h, (k - 1) as nat);
        assert forall|i: int| 0 <= i < legal_prefix(h, k).len() implies MOVE_ORDER@.index_of(#[trigger] legal_prefix(h, k)[i].column) < k by {
            if i < prev.len() {
                assert(legal_prefix(h, k)[i] == prev[i]);
            }
        }
    }
}

/// A window holding three pieces of player `p` and one empty cell scores
/// 1000 for `p` (positive for `Max`, negative for `Min`) when the empty cell
/// is the next free cell of its column, so that it can be played at once,
/// and 100 when it cannot yet be played.
pub proof fn lemma_three_in_window_score(s: ConnectFourState, k: int, e: int, p: MinMaxPlayer)
    requires
        0 <= k < WINDOW_COUNT,
        0 <= e < 4,
        s.token_spec(window_cell(k, e).0, window_cell(k, e).1) is None,
        forall|o: int|
            0 <= o < 4 && o != e ==> s.token_spec(window_cell(k, o).0, window_cell(k, o).1) == Some(p),
    ensures
        s.window_value(k) == (if p == MinMaxPlayer::Max {
            1int
        } else {
            -1int
        }) * (if window_cell(k, e).1 == s.heights@[window_cell(k, e).0] {
            1000int
        } else {
            100int
        }),
{
    reveal_with_fuel(ConnectFourState::window_counts_upto, 5);
    reveal_with_fuel(ConnectFourState::window_empty_upto, 5);
    let t = |o: int| s.token_spec(window_cell(k, o).0, window_cell(k, o).1);
    assert(e == 0 || t(0) == Some(p));
    assert(e == 1 || t(1) == Some(p));
    assert(e == 2 || t(2) == Some(p));
    assert(e == 3 || t(3) == Some(p));
    assert(s.window_empty_upto(k, 4) == Some(window_cell(k, e)));
}

} // verus!
