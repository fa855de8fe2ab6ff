use connect_four::engine::bitboard::BitBoard;
use connect_four::engine::constants::{BOARD_HEIGHT, BOARD_WIDTH};

fn set_token_positions(bitboard: &mut BitBoard, tokens: [[u8; 2]; 4]) {
    tokens.iter().for_each(|&coord| {
        let bit_to_set = BitBoard::bit_index(coord[0], coord[1]);
        bitboard.with_bit_set(bit_to_set);
    });
}

#[test]
fn test_create_empty_board() {
    let bitboard = BitBoard::empty();
    assert_eq!(bitboard.bits(), 0u64, "Empty bitboard should not have any bits set.");
    assert_eq!(bitboard.has_won(), false, "Empty bitboard can't have a win state.");
}

#[test]
fn test_change_board_state_with_allowed_value() {
    let mut bitboard = BitBoard::empty();
    let rows = BOARD_HEIGHT;
    let cols = BOARD_WIDTH;
    let mut expected_value = 0u64;
    for col in 0..cols {
        for row in 0..rows {
            let bit_to_set = col * BOARD_WIDTH + row;
            bitboard.with_bit_set(bit_to_set);
            expected_value = expected_value | (1 << bit_to_set);
            assert_eq!(bitboard.bits(), expected_value, "Board state doesn't match expected value");
        }
    }
    assert_eq!(bitboard.bits(), 279258638311359u64, "Board state should be 279258638311359u64");
}

#[test]
fn test_win_with_vertical_four_connected() {
    let mut bitboard = BitBoard::empty();
    let tokens: [[u8; 2]; 4] = [[0, 0], [0, 1], [0, 2], [0, 3]];
    set_token_positions(&mut bitboard, tokens);
    assert!(bitboard.has_won(), "Board should have won state");
    assert_eq!(bitboard.bits(), 15, "Board state should be 15");
}

#[test]
fn test_no_win_with_vertical_four_disconnected() {
    let mut bitboard = BitBoard::empty();
    let tokens: [[u8; 2]; 4] = [[0, 0], [0, 1], [0, 4], [0, 5]];
    set_token_positions(&mut bitboard, tokens);
    assert_eq!(bitboard.has_won(), false, "Board should have not have a won state");
    assert_eq!(bitboard.bits(), 51, "Board state should be 51");
}

#[test]
fn test_win_with_horizontal_four_connected() {
    let mut bitboard = BitBoard::empty();
    let tokens: [[u8; 2]; 4] = [[1, 3], [2, 3], [3, 3], [4, 3]];
    set_token_positions(&mut bitboard, tokens);
    let expected_value = (1 << 10) + (1 << 17) + (1 << 24) + (1 << 31);
    assert!(bitboard.has_won(), "Board should have won state");
    assert_eq!(bitboard.bits(), expected_value, "Board state should be {}", expected_value);
}

#[test]
fn test_no_win_with_horizontal_four_disconnected() {
    let mut bitboard = BitBoard::empty();
    let tokens: [[u8; 2]; 4] = [[1, 3], [2, 3], [4, 3], [5, 3]];
    set_token_positions(&mut bitboard, tokens);
    let expected_value = (1 << 10) + (1 << 17) + (1 << 31) + (1 << 38);
    assert_eq!(bitboard.has_won(), false, "Board should have not have a won state");
    assert_eq!(bitboard.bits(), expected_value, "Board state should be {}", expected_value);
}

#[test]
fn test_win_with_diagonal_four_connected() {
    let mut bitboard = BitBoard::empty();
    let tokens: [[u8; 2]; 4] = [[1, 1], [2, 2], [3, 3], [4, 4]];
    set_token_positions(&mut bitboard, tokens);
    let expected_value = (1 << 8) + (1 << 16) + (1 << 24) + (1 << 32);
    assert!(bitboard.has_won(), "Board should have won state");
    assert_eq!(bitboard.bits(), expected_value, "Board state should be {}", expected_value);
}

#[test]
fn test_no_win_with_diagonal_four_disconnected() {
    let mut bitboard = BitBoard::empty();
    let tokens: [[u8; 2]; 4] = [[1, 1], [2, 2], [4, 4], [5, 5]];
    set_token_positions(&mut bitboard, tokens);
    let expected_value: u64 = (1 << 8) + (1 << 16) + (1 << 32) + (1 << 40);
    assert_eq!(bitboard.has_won(), false, "Board should have not have a won state");
    assert_eq!(bitboard.bits(), expected_value, "Board state should be {}", expected_value);
}

#[test]
fn test_stride_with_two_next_columns_no_win() {
    let mut bitboard = BitBoard::empty();
    let tokens: [[u8; 2]; 4] = [[2, 4], [2, 5], [3, 0], [3, 1]];
    set_token_positions(&mut bitboard, tokens);
    let expected_value: u64 = (1 << 18) + (1 << 19) + (1 << 21) + (1 << 22);
    assert_eq!(bitboard.has_won(), false, "Board should have not have a won state");
    assert_eq!(bitboard.bits(), expected_value, "Board state should be {}", expected_value);
}

#[test]
fn bitboard_test_debug_printing() {
    let mut bitboard = BitBoard::empty();
    let tokens: [[u8; 2]; 4] = [[1, 1], [2, 2], [3, 3], [4, 4]];
    set_token_positions(&mut bitboard, tokens);
    let debug_print = bitboard.ascii_grid();
    let expected = "+-------+\n\
                                |.......|\n\
                                |....X..|\n\
                                |...X...|\n\
                                |..X....|\n\
                                |.X.....|\n\
                                |.......|\n\
                                +-------+\n\
                                \x200123456\n".to_string();
    assert_eq!(debug_print, expected, "Debug print did not match expected");
}

#[test]
fn test_anti_diagonal_win_and_bit_at() {
    let mut bitboard = BitBoard::empty();
    let tokens: [[u8; 2]; 4] = [[2, 3], [3, 2], [4, 1], [5, 0]];
    set_token_positions(&mut bitboard, tokens);
    assert!(bitboard.has_won());
    assert!(bitboard.bit_at(3, 2));
    assert!(!bitboard.bit_at(3, 3));
    assert_eq!(BitBoard::bit_index(6, 5), 47);
}

#[test]
fn every_line_on_the_grid_wins() {
    let directions: [(i32, i32); 4] = [(0, 1), (1, 0), (1, 1), (1, -1)];
    let mut lines = 0;
    for col in 0..7i32 {
        for row in 0..6i32 {
            for (dc, dr) in directions {
                let end_col = col + 3 * dc;
                let end_row = row + 3 * dr;
                if !(0..7).contains(&end_col) || !(0..6).contains(&end_row) {
                    continue;
                }
                let mut board = BitBoard::empty();
                for k in 0..4 {
                    let c = (col + k * dc) as u8;
                    let r = (row + k * dr) as u8;
                    board.with_bit_set(BitBoard::bit_index(c, r));
                }
                assert!(board.has_won(), "line from ({col},{row}) by ({dc},{dr})");
                lines += 1;
            }
        }
    }
    assert_eq!(lines, 69);
}

#[test]
fn lines_do_not_run_over_the_column_seam() {
    // Column 0 rows 4 and 5, then column 1 rows 0 and 1: bits 4, 5, 7, 8.
    let mut board = BitBoard::empty();
    for (c, r) in [(0u8, 4u8), (0, 5), (1, 0), (1, 1)] {
        board.with_bit_set(BitBoard::bit_index(c, r));
    }
    assert!(!board.has_won());

    // Top of column 0, then the bottom of columns 1 and 2 along bit step 8.
    let mut diagonal = BitBoard::empty();
    for (c, r) in [(0u8, 5u8), (2, 1), (3, 2)] {
        diagonal.with_bit_set(BitBoard::bit_index(c, r));
    }
    assert!(!diagonal.has_won());
    assert_eq!(diagonal.bits(), (1u64 << 5) | (1u64 << 15) | (1u64 << 23));
}
