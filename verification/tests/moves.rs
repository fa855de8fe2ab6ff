use connect_four::engine::moves::{Move, MoveError};

#[test]
fn test_valid_move_creation() {
    let valid_columns = vec![0u8, 1u8, 2u8, 3u8, 4u8, 5u8, 6u8];
    valid_columns.iter().for_each(|&col| {
        _ = Move::new(col).unwrap();
    });
}

#[test]
fn test_invalid_move_creation() {
    let result = Move::new(7u8);
    assert!(result.is_err(), "Invalid move should return Err");
}

#[test]
fn test_move_column_and_error_value() {
    assert_eq!(Move::new(4).unwrap().column(), 4);
    match Move::new(9) {
        Err(MoveError::ColumnOutOfBounds(c)) => assert_eq!(c, 9),
        Ok(_) => panic!("column 9 is off the board"),
    }
}
