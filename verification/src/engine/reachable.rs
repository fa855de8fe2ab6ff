//! What holds of every position reached from an empty board by legal moves:
//! pieces never overlap, column heights match the pieces on the board, the
//! two players' piece counts differ by at most one, a win is four pieces in
//! a line on the grid, and a game that is not over always has a legal move.
use vstd::prelude::*;
use crate::ai::game_state::GameState;
use crate::ai::player::{opponent_of, MinMaxPlayer};
use crate::ai::outcome::Outcome;
use crate::engine::bitboard::{
    bit_set, cell_bit, has_four_on_grid, is_cell_bit, lemma_four_in_line_on_grid, on_board, only_cells,
    BitBoard,
};
use crate::engine::constants::BOARD_HEIGHT;
use crate::engine::bitboard::{four_in_line, has_four_in_line, is_line_step};
use crate::engine::game_state::{
    heights_in_range, legal_prefix, total_height, ConnectFourState, HeuristicVersion, MOVE_ORDER,
};

verus! {

/// The cell with index `i`, counting column by column from the bottom left,
/// as (column, row).
pub open spec fn cell_of_index(i: int) -> (int, int) {
    (i / BOARD_HEIGHT as int, i % BOARD_HEIGHT as int)
}

/// The number of pieces of `p` among the first `n` cells.
pub open spec fn pieces_upto(s: ConnectFourState, p: MinMaxPlayer, n: int) -> int
    decreases n,
{
    if n <= 0 {
        0
    } else {
        let (c, r) = cell_of_index(n - 1);
        pieces_upto(s, p, n - 1) + if s.token_spec(c, r) == Some(p) {
            1int
        } else {
            0int
        }
    }
}

/// The number of pieces of `p` on the board.
pub open spec fn pieces(s: ConnectFourState, p: MinMaxPlayer) -> int {
    pieces_upto(s, p, 42)
}

/// The invariant of every position reached by legal play: heights are in
/// range, no bit outside the cells of the board is set, a cell holds a piece
/// exactly when it lies below its column's height, no cell holds pieces of
/// both players, the pieces on the board are as many as the heights add up
/// to, and the player who moved last has as many pieces as the player to
/// move, or one more.
pub open spec fn well_formed(s: ConnectFourState) -> bool {
    &&& heights_in_range(s.heights@)
    &&& only_cells(s.player1_board@)
    &&& only_cells(s.player2_board@)
    &&& forall|c: int, r: int|
        on_board(c, r) ==> ((#[trigger] s.token_spec(c, r) is Some) <==> r < s.heights@[c])
    &&& forall|c: int, r: int|
        #![trigger cell_bit(c, r)]
        on_board(c, r) ==> !(bit_set(s.player1_board@, cell_bit(c, r)) && bit_set(
            s.player2_board@,
            cell_bit(c, r),
        ))
    &&& pieces(s, MinMaxPlayer::Max) + pieces(s, MinMaxPlayer::Min) == total_height(s.heights@)
    &&& {
        let d = pieces(s, opponent_of(s.current_player)) - pieces(s, s.current_player);
        d == 0 || d == 1
    }
}

/// With no piece on the board, no player has a piece in the first `n` cells.
proof fn lemma_pieces_empty(s: ConnectFourState, p: MinMaxPlayer, n: int)
    requires
        forall|c: int, r: int| #[trigger] s.token_spec(c, r) is None,
    ensures
        pieces_upto(s, p, n) == 0,
    decreases n,
{
    if n > 0 {
        lemma_pieces_empty(s, p, n - 1);
        let (c, r) = cell_of_index(n - 1);
        assert(s.token_spec(c, r) is None);
    }
}

/// When `t` differs from `s` only by a piece of `p` in the empty cell with
/// index `j`, the count of `q` among the first `n` cells grows by one
/// exactly when `q` is `p` and the cell is among them.
proof fn lemma_pieces_one_more(
    s: ConnectFourState,
    t: ConnectFourState,
    p: MinMaxPlayer,
    q: MinMaxPlayer,
    j: int,
    n: int,
)
    requires
        0 <= j < 42,
        0 <= n <= 42,
        s.token_spec(cell_of_index(j).0, cell_of_index(j).1) is None,
        t.token_spec(cell_of_index(j).0, cell_of_index(j).1) == Some(p),
        forall|i: int|
            0 <= i < 42 && i != j ==> t.token_spec(cell_of_index(i).0, cell_of_index(i).1)
                == s.token_spec(#[trigger] cell_of_index(i).0, cell_of_index(i).1),
    ensures
        pieces_upto(t, q, n) == pieces_upto(s, q, n) + if q == p && j < n {
            1int
        } else {
            0int
        },
    decreases n,
{
    if n > 0 {
        lemma_pieces_one_more(s, t, p, q, j, n - 1);
        if n - 1 != j {
            assert(t.token_spec(cell_of_index(n - 1).0, cell_of_index(n - 1).1) == s.token_spec(
                cell_of_index(n - 1).0,
                cell_of_index(n - 1).1,
            ));
        }
    }
}

/// The empty board, with either player to move and any choice of
/// heuristics, satisfies the invariant, and neither player has a piece.
pub proof fn lemma_initial_well_formed(p: MinMaxPlayer, heuristics: [HeuristicVersion; 2])
    ensures
        well_formed(ConnectFourState { player_heuristic: heuristics, ..ConnectFourState::initial(p) }),
        pieces(ConnectFourState { player_heuristic: heuristics, ..ConnectFourState::initial(p) }, MinMaxPlayer::Max) == 0,
        pieces(ConnectFourState { player_heuristic: heuristics, ..ConnectFourState::initial(p) }, MinMaxPlayer::Min) == 0,
{
    let s = ConnectFourState { player_heuristic: heuristics, ..ConnectFourState::initial(p) };
    BitBoard::lemma_empty_spec();
    assert(s.heights@ =~= seq![0u8, 0u8, 0u8, 0u8, 0u8, 0u8, 0u8]);
    assert forall|c: int, r: int| #[trigger] s.token_spec(c, r) is None by {
        if 0 <= cell_bit(c, r) < 64 {
            let k = cell_bit(c, r) as u64;
            assert((0u64 >> k) & 1 == 0) by (bit_vector);
        }
    }
    lemma_pieces_empty(s, MinMaxPlayer::Max, 42);
    lemma_pieces_empty(s, MinMaxPlayer::Min, 42);
    assert forall|i: int| !#[trigger] bit_set(0u64, i) by {
        if 0 <= i < 64 {
            let k = i as u64;
            assert((0u64 >> k) & 1 == 0) by (bit_vector);
        }
    }
    assert forall|c: int, r: int| #![trigger cell_bit(c, r)] on_board(c, r) implies !(bit_set(
        s.player1_board@,
        cell_bit(c, r),
    ) && bit_set(s.player2_board@, cell_bit(c, r))) by {
        assert(s.token_spec(c, r) is None);
    }
}

/// Dropping a piece into an open column keeps the invariant: the player to
/// move gains one piece in the lowest empty cell of the column, the other
/// player's pieces stay, and the turn passes to the other player.
pub proof fn lemma_move_keeps_well_formed(s: ConnectFourState, col: u8)
    requires
        well_formed(s),
        s.column_open(col as int),
    ensures
        well_formed(s.after_move(col)),
        s.after_move(col).current_player == opponent_of(s.current_player),
        s.after_move(col).token_spec(col as int, s.heights@[col as int] as int) == Some(s.current_player),
        pieces(s.after_move(col), s.current_player) == pieces(s, s.current_player) + 1,
        pieces(s.after_move(col), opponent_of(s.current_player)) == pieces(s, opponent_of(s.current_player)),
        total_height(s.after_move(col).heights@) == total_height(s.heights@) + 1,
{
    let t = s.after_move(col);
    let h = s.heights@[col as int] as int;
    let b = cell_bit(col as int, h);
    let p = s.current_player;
    s.player1_board.lemma_with_bit(b);
    s.player2_board.lemma_with_bit(b);
    assert(is_cell_bit(b)) by {
        assert((col as int * 7 + h) % 7 == h);
    }
    assert(t.heights@ =~= s.heights@.update(col as int, (h + 1) as u8));
    assert(s.token_spec(col as int, h) is None);
    // Distinct cells of the board have distinct bits.
    assert forall|c: int, r: int| on_board(c, r) && (c != col || r != h) implies cell_bit(c, r) != b by {
        if c < col {
            assert(cell_bit(c, r) < cell_bit(col as int, 0));
        } else if c > col {
            assert(cell_bit(c, r) > cell_bit(col as int, 6));
        }
    }
    assert forall|c: int, r: int| on_board(c, r) && (c != col || r != h) implies #[trigger] t.token_spec(c, r)
        == s.token_spec(c, r) by {
        assert(cell_bit(c, r) != b);
    }
    assert(t.token_spec(col as int, h) == Some(p));
    assert forall|c: int, r: int| on_board(c, r) implies ((#[trigger] t.token_spec(c, r) is Some) <==> r
        < t.heights@[c]) by {
        if c != col || r != h {
            assert(t.token_spec(c, r) == s.token_spec(c, r));
        }
    }
    assert forall|c: int, r: int| #![trigger cell_bit(c, r)] on_board(c, r) implies !(bit_set(
        t.player1_board@,
        cell_bit(c, r),
    ) && bit_set(t.player2_board@, cell_bit(c, r))) by {
        if c != col || r != h {
            assert(cell_bit(c, r) != b);
            assert(s.token_spec(c, r) == t.token_spec(c, r));
        }
    }
    let j = col as int * 6 + h;
    assert(cell_of_index(j) == (col as int, h));
    assert forall|i: int| 0 <= i < 42 && i != j implies t.token_spec(cell_of_index(i).0, cell_of_index(i).1)
        == s.token_spec(#[trigger] cell_of_index(i).0, cell_of_index(i).1) by {
        let (c, r) = cell_of_index(i);
        assert(on_board(c, r));
        assert(c != col || r != h);
    }
    lemma_pieces_one_more(s, t, p, p, j, 42);
    lemma_pieces_one_more(s, t, p, opponent_of(p), j, 42);
    lemma_pieces_one_more(s, t, p, MinMaxPlayer::Max, j, 42);
    lemma_pieces_one_more(s, t, p, MinMaxPlayer::Min, j, 42);
}

/// Choosing a heuristic for a player keeps the invariant: it does not touch
/// the board.
pub proof fn lemma_heuristic_keeps_well_formed(s: ConnectFourState, heuristics: [HeuristicVersion; 2])
    requires
        well_formed(s),
    ensures
        well_formed(ConnectFourState { player_heuristic: heuristics, ..s }),
{
    let t = ConnectFourState { player_heuristic: heuristics, ..s };
    assert forall|c: int, r: int| #[trigger] t.token_spec(c, r) == s.token_spec(c, r) by {}
    lemma_pieces_same_board(s, t, MinMaxPlayer::Max, 42);
    lemma_pieces_same_board(s, t, MinMaxPlayer::Min, 42);
}

/// Two states with the same pieces count the same pieces.
proof fn lemma_pieces_same_board(s: ConnectFourState, t: ConnectFourState, q: MinMaxPlayer, n: int)
    requires
        s.player1_board == t.player1_board,
        s.player2_board == t.player2_board,
    ensures
        pieces_upto(t, q, n) == pieces_upto(s, q, n),
    decreases n,
{
    if n > 0 {
        lemma_pieces_same_board(s, t, q, n - 1);
    }
}

/// In every position of the invariant the two players' piece counts differ
/// by at most one, and they add up to the pieces played.
pub proof fn lemma_piece_counts(s: ConnectFourState)
    requires
        well_formed(s),
    ensures
        -1 <= pieces(s, MinMaxPlayer::Max) - pieces(s, MinMaxPlayer::Min) <= 1,
        pieces(s, MinMaxPlayer::Max) + pieces(s, MinMaxPlayer::Min) == total_height(s.heights@),
{
}

/// In a position of the invariant, the game is won by the player who moved
/// last exactly when four of that player's pieces lie in a line on the grid:
/// in a column, a row or a diagonal.
pub proof fn lemma_win_is_four_on_grid(s: ConnectFourState)
    requires
        well_formed(s),
    ensures
        s.outcome_spec() == Some(Outcome::Win(opponent_of(s.current_player))) <==> has_four_on_grid(
            s.board_of(opponent_of(s.current_player))@,
        ),
{
    lemma_four_in_line_on_grid(s.player1_board@);
    lemma_four_in_line_on_grid(s.player2_board@);
}

/// A game that is not over has a legal move, and a position without legal
/// moves is over.
pub proof fn lemma_open_game_has_move(s: ConnectFourState)
    ensures
        s.outcome_spec() is None ==> s.legal_moves_spec().len() > 0,
        s.legal_moves_spec().len() == 0 ==> s.outcome_spec() is Some,
{
}

/// How many of the four cell indices `js` lie below `n`.
spec fn count_below(js: Seq<int>, n: int) -> int {
    (if js[0] < n { 1int } else { 0int }) + (if js[1] < n { 1int } else { 0int }) + (if js[2] < n {
        1int
    } else {
        0int
    }) + (if js[3] < n { 1int } else { 0int })
}

/// Four different cells holding pieces of `p` make at least four pieces of
/// `p` among the first `n` cells, counting those below `n`.
proof fn lemma_pieces_at_least(s: ConnectFourState, p: MinMaxPlayer, js: Seq<int>, n: int)
    requires
        js.len() == 4,
        0 <= n <= 42,
        forall|a: int, b: int| 0 <= a < b < 4 ==> js[a] != js[b],
        forall|a: int|
            0 <= a < 4 ==> 0 <= #[trigger] js[a] < 42 && s.token_spec(cell_of_index(js[a]).0, cell_of_index(js[a]).1)
                == Some(p),
    ensures
        pieces_upto(s, p, n) >= count_below(js, n),
    decreases n,
{
    if n > 0 {
        lemma_pieces_at_least(s, p, js, n - 1);
        if js[0] == n - 1 || js[1] == n - 1 || js[2] == n - 1 || js[3] == n - 1 {
            let a = if js[0] == n - 1 { 0int } else if js[1] == n - 1 { 1int } else if js[2] == n - 1 { 2int } else { 3int };
            assert(s.token_spec(cell_of_index(js[a]).0, cell_of_index(js[a]).1) == Some(p));
        }
    }
}

/// A player with four in a line, in a position of the invariant, has at
/// least four pieces on the board.
proof fn lemma_four_pieces(s: ConnectFourState, p: MinMaxPlayer)
    requires
        well_formed(s),
        has_four_in_line(s.board_of(p)@),
    ensures
        pieces(s, p) >= 4,
{
    let b = s.board_of(p)@;
    let (start, step) = choose|start: int, step: int| is_line_step(step) && #[trigger] four_in_line(b, start, step);
    let bits = seq![start, start + step, start + 2 * step, start + 3 * step];
    let js = Seq::new(4, |a: int| (bits[a] / 7) * 6 + bits[a] % 7);
    assert forall|a: int| 0 <= a < 4 implies 0 <= #[trigger] js[a] < 42 && s.token_spec(
        cell_of_index(js[a]).0,
        cell_of_index(js[a]).1,
    ) == Some(p) by {
        let i = bits[a];
        assert(bit_set(b, i));
        assert(is_cell_bit(i));
        let c = i / 7;
        let r = i % 7;
        assert(i == cell_bit(c, r));
        assert(on_board(c, r));
        assert(cell_of_index(js[a]) == (c, r));
        assert(!(bit_set(s.player1_board@, cell_bit(c, r)) && bit_set(s.player2_board@, cell_bit(c, r))));
    }
    assert forall|a: int, d: int| 0 <= a < d < 4 implies js[a] != js[d] by {
        assert(bits[a] < bits[d]);
    }
    lemma_pieces_at_least(s, p, js, 42);
}

/// With no legal move left, every column in the move order is full.
proof fn lemma_no_moves_full(h: Seq<u8>, k: nat)
    requires
        k <= 7,
        legal_prefix(h, k).len() == 0,
    ensures
        forall|j: int| 0 <= j < k ==> h[MOVE_ORDER@[j] as int] >= BOARD_HEIGHT,
    decreases k,
{
    if k > 0 {
        assert(legal_prefix(h, (k - 1) as nat).len() <= legal_prefix(h, k).len());
        lemma_no_moves_full(h, (k - 1) as nat);
    }
}

/// A finished game, in a position of the invariant, has at least seven
/// pieces on the board: a win needs four pieces of the player who moved
/// last, and so three of the other, and a draw fills the board.
pub proof fn lemma_finished_game_length(s: ConnectFourState)
    requires
        well_formed(s),
        s.outcome_spec() is Some,
    ensures
        total_height(s.heights@) >= 7,
{
    let prev = opponent_of(s.current_player);
    if has_four_in_line(s.board_of(prev)@) {
        lemma_four_pieces(s, prev);
    } else {
        assert(MOVE_ORDER@ =~= seq![3u8, 2u8, 4u8, 1u8, 5u8, 0u8, 6u8]);
        lemma_no_moves_full(s.heights@, 7);
        assert(s.heights@[MOVE_ORDER@[0] as int] >= 6);
        assert(s.heights@[MOVE_ORDER@[1] as int] >= 6);
    }
}

} // verus!