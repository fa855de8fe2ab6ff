use connect_four::ai::{GameState, MinMaxPlayer, Outcome, Player};
use connect_four::engine::bitboard::BitBoard;
use connect_four::engine::constants::{BOARD_HEIGHT, BOARD_WIDTH};
use connect_four::engine::game_state::{
    ConnectFourState, HeuristicVersion, MOVE_ORDER, TWO_IN_ROW_WEIGHT,
};
use connect_four::engine::moves::Move;

fn fill_column(game_state: ConnectFourState, column: u8) -> ConnectFourState {
    let mut game_state = game_state;
    let fill_move = Move::new(column).unwrap();
    for _ in 0..BOARD_HEIGHT {
        game_state = game_state.with_move(&fill_move).unwrap();
    }
    game_state
}

/// Turns an ASCII board (the format of `ascii_board`) into a sequence of
/// moves that reaches the same position when played from an empty board.
fn moves_from_ascii(lines: &[&str], starting_player: MinMaxPlayer) -> Vec<Move> {
    assert_eq!(lines.len(), (BOARD_HEIGHT as usize) + 3);
    let mut inner_rows: Vec<String> = Vec::new();
    for i in 1..=BOARD_HEIGHT as usize {
        let row = lines[i];
        assert!(row.starts_with('|') && row.ends_with('|'));
        let inner = &row[1..row.len() - 1];
        assert_eq!(inner.len(), BOARD_WIDTH as usize);
        inner_rows.push(inner.to_string());
    }
    let height = inner_rows.len();
    let width = BOARD_WIDTH as usize;
    let mut owner_at: Vec<Vec<Option<MinMaxPlayer>>> = vec![vec![None; height]; width];
    for ascii_row_idx in 0..height {
        let ascii_row = &inner_rows[ascii_row_idx];
        let row = height - 1 - ascii_row_idx;
        for col in 0..width {
            let ch = ascii_row.as_bytes()[col] as char;
            owner_at[col][row] = match ch {
                'X' => Some(MinMaxPlayer::Max),
                'O' => Some(MinMaxPlayer::Min),
                '.' => None,
                other => panic!("unexpected character '{}' in board", other),
            };
        }
    }
    let mut heights: Vec<usize> = vec![0; width];
    let total_pieces: usize = owner_at
        .iter()
        .map(|col_vec| col_vec.iter().filter(|o| o.is_some()).count())
        .sum();
    let mut moves: Vec<Move> = Vec::with_capacity(total_pieces);

    fn backtrack(
        owner_at: &Vec<Vec<Option<MinMaxPlayer>>>,
        size: &(usize, usize),
        heights: &mut [usize],
        current_player: MinMaxPlayer,
        placed: usize,
        total_pieces: usize,
        moves: &mut Vec<Move>,
    ) -> bool {
        if placed == total_pieces {
            return true;
        }
        for col in 0..size.1 {
            let row = heights[col];
            if row >= size.0 {
                continue;
            }
            if owner_at[col][row] == Some(current_player) {
                moves.push(Move { column: col as u8 });
                heights[col] += 1;
                if backtrack(owner_at, size, heights, current_player.opponent(), placed + 1, total_pieces, moves) {
                    return true;
                }
                heights[col] -= 1;
                moves.pop();
            }
        }
        false
    }

    if !backtrack(&owner_at, &(height, width), &mut heights, starting_player, 0, total_pieces, &mut moves) {
        panic!("unreachable position for this starting_player");
    }
    moves
}

#[test]
fn test_initial_state() {
    let game_state = ConnectFourState::new(MinMaxPlayer::Max);
    let expected_legal_moves = MOVE_ORDER.iter().map(|&x| Move { column: x }).collect::<Vec<_>>();
    assert_eq!(game_state.legal_moves(), expected_legal_moves, "Expected legal columns do not match");
}

#[test]
fn test_fill_first_column() {
    let game_state = fill_column(ConnectFourState::new(MinMaxPlayer::Max), 0u8);
    let expected_legal_moves = MOVE_ORDER
        .iter()
        .filter(|&x| *x != 0)
        .map(|&x| Move { column: x })
        .collect::<Vec<_>>();
    assert_eq!(game_state.is_column_legal(0u8), false, "First column should be full");
    assert_eq!(game_state.current_player, MinMaxPlayer::Max, "Current player should be Max");
    assert_eq!(game_state.legal_moves(), expected_legal_moves, "Legal columns should be 1..6");
    let red_player_board = game_state.player1_board;
    let white_player_board = game_state.player2_board;
    let red_tokens = [[0, 0], [0, 2], [0, 4]];
    let white_tokens = [[0, 1], [0, 3], [0, 5]];
    red_tokens.iter().for_each(|coord| {
        assert!(red_player_board.bit_at(coord[0], coord[1]), "Red player token position mismatch")
    });
    white_tokens.iter().for_each(|coord| {
        assert!(white_player_board.bit_at(coord[0], coord[1]), "White player token position mismatch")
    });
}

#[test]
fn test_player_turn_change_after_move() {
    let game_state = ConnectFourState::new(MinMaxPlayer::Max);
    let mv = Move::new(0u8).unwrap();
    let new_state = game_state.with_move(&mv).unwrap();
    assert_eq!(new_state.current_player(), MinMaxPlayer::Min, "Expected player after turn change is Min");
}

#[test]
fn test_player_trying_to_fill_full_column() {
    let game_state = fill_column(ConnectFourState::new(MinMaxPlayer::Max), 0u8);
    let mv = Move::new(0u8).unwrap();
    let result = game_state.with_move(&mv);
    assert!(result.is_err(), "Player shouldn't be able to play full column");
}

#[test]
fn test_player_trying_to_fill_column_outside_bounds() {
    _ = ConnectFourState::new(MinMaxPlayer::Max);
    let result = Move::new(7u8);
    assert!(result.is_err(), "Player shouldn't be able to create invalid move");
}

#[test]
fn test_no_winner_can_be_found() {
    let mut game_state = ConnectFourState::new(MinMaxPlayer::Max);
    let red_tokens = [[0, 0], [1, 0], [4, 0], [5, 0], [6, 0],
        [2, 1], [3, 1],
        [0, 2], [1, 2], [4, 2], [5, 2], [6, 2],
        [2, 3], [3, 3],
        [0, 4], [1, 4], [4, 4], [5, 4], [6, 4],
        [2, 5], [3, 5]];
    let white_tokens = [[2, 0], [3, 0],
        [0, 1], [1, 1], [4, 1], [5, 1], [6, 1],
        [2, 2], [3, 2],
        [0, 3], [1, 3], [4, 3], [5, 3], [6, 3],
        [2, 4], [3, 4],
        [0, 5], [1, 5], [4, 5], [5, 5], [6, 5]];
    for i in 0..(BOARD_HEIGHT * BOARD_WIDTH) as usize {
        let coord = if i % 2 == 0 { red_tokens[i / 2] } else { white_tokens[i / 2] };
        let mv = Move::new(coord[0]).unwrap();
        game_state = game_state.with_move(&mv).unwrap();
    }
    assert_eq!(game_state.outcome(), Some(Outcome::Draw), "Game shouldn't have a winner");
    assert!(game_state.is_draw(), "Game should be a draw");
    assert_eq!(game_state.legal_moves().iter().count(), 0, "Board should be full");
}

#[test]
fn test_outcome_max_wins() {
    let mut game = ConnectFourState::new(MinMaxPlayer::Min);
    game.set_player_heuristic(MinMaxPlayer::Max, HeuristicVersion::V2);
    let max_tokens = [[0, 0], [1, 0], [2, 0], [3, 0]];
    max_tokens.iter().for_each(|coord| {
        let bit_index = BitBoard::bit_index(coord[0], coord[1]);
        game.player1_board.with_bit_set(bit_index);
    });
    assert_eq!(Some(Outcome::Win(MinMaxPlayer::Max)), game.outcome(), "Max should have won");
}

#[test]
fn test_outcome_min_wins() {
    let mut game = ConnectFourState::new(MinMaxPlayer::Max);
    game.set_player_heuristic(MinMaxPlayer::Min, HeuristicVersion::V2);
    let min_tokens = [[0, 0], [0, 1], [0, 2], [0, 3]];
    min_tokens.iter().for_each(|coord| {
        let bit_index = BitBoard::bit_index(coord[0], coord[1]);
        game.player2_board.with_bit_set(bit_index);
    });
    assert_eq!(Some(Outcome::Win(MinMaxPlayer::Min)), game.outcome(), "Min should have won");
}

#[test]
fn test_outcome_heuristic_evaluate() {
    let mut game = ConnectFourState::new(MinMaxPlayer::Max);
    game.set_player_heuristic(MinMaxPlayer::Min, HeuristicVersion::V2);
    assert_eq!(0, game.evaluate(), "Evaluate should have been 0 for empty board");
}

#[test]
fn test_no_heuristics() {
    let game = ConnectFourState::new(MinMaxPlayer::Max);
    assert_eq!(game.heuristic_score(), 0, "Heuristic v1 score should be 0");
}

#[test]
fn test_heuristics_v2_returns_with_empty_board_is_zero() {
    let mut game = ConnectFourState::new(MinMaxPlayer::Max);
    game.set_player_heuristic(MinMaxPlayer::Max, HeuristicVersion::V2);
    assert_eq!(game.heuristic_score(), 0, "Heuristic v2 score on empty board should be 0");
}

#[test]
fn test_heuristics_v2_returns_more_than_zero_for_max() {
    let mut game = ConnectFourState::new(MinMaxPlayer::Max);
    game.set_player_heuristic(MinMaxPlayer::Max, HeuristicVersion::V2);
    let bit_index = BitBoard::bit_index(3, 3);
    game.player1_board.with_bit_set(bit_index);
    assert!(game.heuristic_score() > 0, "Heuristic v2 score should be above 0");
}

#[test]
fn test_heuristics_v2_returns_less_than_zero_for_min() {
    let mut game = ConnectFourState::new(MinMaxPlayer::Min);
    game.set_player_heuristic(MinMaxPlayer::Min, HeuristicVersion::V2);
    let bit_index = BitBoard::bit_index(3, 3);
    game.player2_board.with_bit_set(bit_index);
    assert!(game.heuristic_score() < 0, "Heuristic v2 score should be below 0");
}

#[test]
fn test_all_four_in_row_counts_match() {
    let game = ConnectFourState::new(MinMaxPlayer::Max);
    let results = game.collect_four_in_rows();
    assert_eq!(results.len(), 69, "There should be total 69 four in row possibilities");
    results.iter().for_each(|&x| {
        assert_eq!(x, (0, 0, 4), "For empty board all four in rows should be (0,0,4)")
    })
}

fn set_max(game: &mut ConnectFourState, tokens: &[[u8; 2]]) {
    tokens.iter().for_each(|coord| {
        let bit_index = BitBoard::bit_index(coord[0], coord[1]);
        game.player1_board.with_bit_set(bit_index);
    });
}

fn set_min(game: &mut ConnectFourState, tokens: &[[u8; 2]]) {
    tokens.iter().for_each(|coord| {
        let bit_index = BitBoard::bit_index(coord[0], coord[1]);
        game.player2_board.with_bit_set(bit_index);
    });
}

fn count_of(fours: &[(u16, u16, u16)], pattern: (u16, u16, u16)) -> usize {
    fours.iter().filter(|&x| *x == pattern).collect::<Vec<_>>().iter().count()
}

#[test]
fn test_all_four_in_row_for_max_horizontal() {
    let mut game = ConnectFourState::new(MinMaxPlayer::Max);
    let expected_four_in_row = vec![(4, 0, 0), (3, 0, 1), (2, 0, 2), (1, 0, 3)];
    set_max(&mut game, &[[0, 0], [1, 0], [2, 0], [3, 0]]);
    let fours = game.collect_four_in_rows();
    expected_four_in_row.iter().for_each(|x| {
        assert!(fours.contains(&x), "Four in rows should contain {:?}", &x);
    });
    assert!(game.heuristic_v2() > TWO_IN_ROW_WEIGHT, "Heuristic score should be higher than {}", TWO_IN_ROW_WEIGHT);
}

#[test]
fn test_all_four_in_row_for_min_horizontal() {
    let mut game = ConnectFourState::new(MinMaxPlayer::Min);
    let expected_four_in_row = vec![(0, 4, 0), (0, 3, 1), (0, 2, 2), (0, 1, 3)];
    set_min(&mut game, &[[3, 5], [4, 5], [5, 5], [6, 5]]);
    let fours = game.collect_four_in_rows();
    expected_four_in_row.iter().for_each(|x| {
        assert!(fours.contains(&x), "Four in rows should contain {:?}", &x);
    });
    assert!(game.heuristic_v2() < TWO_IN_ROW_WEIGHT, "Heuristic score should be lower than {}", TWO_IN_ROW_WEIGHT);
}

#[test]
fn test_all_three_in_row_for_max_vertical() {
    let mut game = ConnectFourState::new(MinMaxPlayer::Max);
    set_max(&mut game, &[[0, 5], [0, 4], [0, 3], [3, 5], [3, 4], [3, 3]]);
    let fours = game.collect_four_in_rows();
    assert_eq!(count_of(&fours, (3, 0, 1)), 2, "Max should have two three in rows");
    assert!(game.heuristic_v2() > TWO_IN_ROW_WEIGHT, "Heuristic score should be higher than {}", TWO_IN_ROW_WEIGHT)
}

#[test]
fn test_all_three_in_row_for_min_vertical() {
    let mut game = ConnectFourState::new(MinMaxPlayer::Min);
    set_min(&mut game, &[[2, 0], [2, 1], [2, 2], [4, 1], [4, 2], [4, 3]]);
    let fours = game.collect_four_in_rows();
    assert_eq!(count_of(&fours, (0, 3, 1)), 3, "Min should have 3 three in rows");
    assert_eq!(count_of(&fours, (0, 2, 2)), 9, "Min should have 9 two in rows");
    assert!(game.heuristic_v2() < TWO_IN_ROW_WEIGHT, "Heuristic score should be lower than {}", TWO_IN_ROW_WEIGHT)
}

#[test]
fn test_all_three_in_row_for_max_diagonal() {
    let mut game = ConnectFourState::new(MinMaxPlayer::Max);
    set_max(&mut game, &[[1, 4], [2, 3], [3, 2], [4, 3], [5, 4]]);
    let fours = game.collect_four_in_rows();
    assert_eq!(count_of(&fours, (3, 0, 1)), 4, "Max should have four three in rows");
    assert!(game.heuristic_v2() > TWO_IN_ROW_WEIGHT, "Heuristic score should be higher than {}", TWO_IN_ROW_WEIGHT);
}

#[test]
fn test_all_three_in_row_for_min_diagonal() {
    let mut game = ConnectFourState::new(MinMaxPlayer::Min);
    set_min(&mut game, &[[0, 4], [1, 3], [2, 2], [1, 4], [2, 3], [3, 2]]);
    let fours = game.collect_four_in_rows();
    assert_eq!(count_of(&fours, (0, 3, 1)), 3, "Min should have 3 three in rows");
    assert_eq!(count_of(&fours, (0, 2, 2)), 13, "Min should have 13 twos in rows");
    assert!(game.heuristic_v2() < TWO_IN_ROW_WEIGHT, "Heuristic score should be lower than {}", TWO_IN_ROW_WEIGHT);
}

#[test]
fn test_mixed_four_in_row_window() {
    let mut game = ConnectFourState::new(MinMaxPlayer::Max);
    set_max(&mut game, &[[1, 4], [3, 2], [5, 3]]);
    set_min(&mut game, &[[2, 3], [5, 4], [5, 2]]);
    let fours = game.collect_four_in_rows();
    assert_eq!(count_of(&fours, (2, 1, 1)), 2, "Max should have 2 mixed rows");
    assert_eq!(count_of(&fours, (1, 2, 1)), 2, "Min should have 2 mixed rows");
    assert_eq!(count_of(&fours, (1, 0, 3)), 14, "Max should have 14 one in rows");
    assert_eq!(game.heuristic_v2(), 2, "Heuristic score should be 2 for Max");
}

#[test]
fn game_state_test_debug_printing() {
    let mut game = ConnectFourState::new(MinMaxPlayer::Max);
    set_max(&mut game, &[[1, 4], [2, 3], [3, 2], [4, 3], [5, 4]]);
    set_min(&mut game, &[[1, 1], [2, 1], [3, 1], [4, 1], [5, 1]]);
    let debug_print = game.ascii_board();
    let expected = "+-------+\n\
                                |.......|\n\
                                |.X...X.|\n\
                                |..X.X..|\n\
                                |...X...|\n\
                                |.OOOOO.|\n\
                                |.......|\n\
                                +-------+\n\
                                \x200123456\n\
                                \x20TURN: Max\n\
                                \x20HEURISTIC: 0\n\
                                ".to_string();
    assert_eq!(debug_print, expected, "Debug print did not match expected");
}

#[test]
fn test_piece_count_difference_invariant() {
    let mut game = ConnectFourState::new(MinMaxPlayer::Max);
    for col in [0, 1, 2, 3, 4] {
        let mv = Move::new(col).unwrap();
        if game.is_column_legal(col) {
            game = game.with_move(&mv).unwrap();
        }
    }
    let mut max_count = 0;
    let mut min_count = 0;
    for col in 0..BOARD_WIDTH {
        for row in 0..BOARD_HEIGHT {
            match game.token_at(col, row) {
                Some(MinMaxPlayer::Max) => max_count += 1,
                Some(MinMaxPlayer::Min) => min_count += 1,
                None => {}
            }
        }
    }
    assert!((max_count - min_count) <= 1);
}

#[test]
fn test_terminal_and_legal_moves_consistency() {
    let mut game = ConnectFourState::new(MinMaxPlayer::Min);
    let max_tokens = [[3, 0], [4, 0], [5, 0], [6, 0]];
    max_tokens.iter().for_each(|coord| {
        let bit_index = BitBoard::bit_index(coord[0], coord[1]);
        game.player1_board.with_bit_set(bit_index);
    });
    assert!(game.outcome().is_some());
    let game2 = ConnectFourState::new(MinMaxPlayer::Max);
    let max_tokens = [[2, 0], [3, 0], [5, 0], [6, 0]];
    max_tokens.iter().for_each(|coord| {
        let bit_index = BitBoard::bit_index(coord[0], coord[1]);
        game.player1_board.with_bit_set(bit_index);
    });
    assert!(game2.outcome().is_none());
    assert_ne!(game2.legal_moves().is_empty(), true, "We chould have remaining legal moves");
}

#[test]
fn test_no_overlapping_pieces_in_bitboards() {
    let mut game = ConnectFourState::new(MinMaxPlayer::Max);
    let columns = [3, 2, 3, 3, 2, 4, 4, 3, 3, 2, 2];
    columns.iter().for_each(|&col| {
        game = game.with_move(&Move::new(col).unwrap()).unwrap();
    });
    for col in 0..BOARD_WIDTH {
        for row in 0..BOARD_HEIGHT {
            let max_here = game.player1_board.bit_at(col, row);
            let min_here = game.player2_board.bit_at(col, row);
            assert!(!(max_here && min_here), "Board has both Max and Min at ({col},{row})");
        }
    }
}

#[test]
fn test_heights_match_bitboards() {
    let mut game = ConnectFourState::new(MinMaxPlayer::Max);
    let columns = [3, 2, 3, 3, 2, 4, 4, 3, 3, 2, 2];
    columns.iter().for_each(|&col| {
        game = game.with_move(&Move::new(col).unwrap()).unwrap();
    });
    for col in 0..BOARD_WIDTH {
        let mut count = 0;
        for row in 0..BOARD_HEIGHT {
            if game.token_at(col, row).is_some() {
                count += 1;
            }
        }
        assert_eq!(game.heights[col as usize] as usize, count,
            "heights[{}] doesn't match number of pieces in column", col);
    }
}

#[test]
fn test_current_player_alternates() {
    let start = MinMaxPlayer::Max;
    let mut game = ConnectFourState::new(start);
    let columns = [0, 1, 2, 3, 4, 5, 6];
    for (i, col) in columns.iter().enumerate() {
        let mv = Move::new(*col).unwrap();
        game = game.with_move(&mv).unwrap();
        let expected = match (i + 1) % 2 == 0 {
            true => start,
            false => start.opponent(),
        };
        assert_eq!(game.current_player, expected, "Current player isn't expected player {:?}", expected);
    }
}

#[test]
fn test_moves_from_ascii_yields_same_state_when_moves_applied() {
    let mut game = ConnectFourState::new(MinMaxPlayer::Max);
    let state: &str = "+-------+\n\
                    |.......|\n\
                    |...X...|\n\
                    |...O...|\n\
                    |..OX...|\n\
                    |.OOO..O|\n\
                    |.XXX..X|\n\
                    +-------+\n\
                    \x200123456";
    let moves = moves_from_ascii(&state.lines().collect::<Vec<_>>(), MinMaxPlayer::Max);
    moves.iter().for_each(|m| {
        game = game.with_move(m).unwrap();
    });
    let actual = game.ascii_board();
    actual.lines().take(BOARD_HEIGHT as usize + 2).for_each(|line| {
        assert!(state.contains(line), "The actual state doesn't contain line {}", line);
    });
}

#[test]
fn test_with_move_on_full_column_reports_column() {
    let game = fill_column(ConnectFourState::new(MinMaxPlayer::Min), 6u8);
    match game.with_move(&Move { column: 6 }) {
        Err(connect_four::engine::game_state::MoveError::ColumnFull(c)) => assert_eq!(c, 6),
        _ => panic!("column 6 is full"),
    }
    assert!(game.with_move(&Move { column: 9 }).is_err());
}

#[test]
fn test_negative_heuristic_is_printed_with_sign() {
    let mut game = ConnectFourState::new(MinMaxPlayer::Min);
    game.set_player_heuristic(MinMaxPlayer::Min, HeuristicVersion::V2);
    let bit_index = BitBoard::bit_index(0, 0);
    game.player2_board.with_bit_set(bit_index);
    let score = game.heuristic_score();
    assert_eq!(score, -3);
    assert!(game.ascii_board().ends_with(" TURN: Min\n HEURISTIC: -3\n"));
}
