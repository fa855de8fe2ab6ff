use connect_four::ai::{GameState, MinMaxPlayer, Outcome, Player};
use connect_four::engine::constants::{BOARD_HEIGHT, BOARD_WIDTH};
use connect_four::engine::game_state::ConnectFourState;

fn check_invariant(game: &ConnectFourState, moves_played: usize) {
    let mut max_count = 0i32;
    let mut min_count = 0i32;
    for col in 0..BOARD_WIDTH {
        let mut in_column = 0u8;
        for row in 0..BOARD_HEIGHT {
            let max_here = game.player1_board.bit_at(col, row);
            let min_here = game.player2_board.bit_at(col, row);
            assert!(!(max_here && min_here));
            match game.token_at(col, row) {
                Some(MinMaxPlayer::Max) => max_count += 1,
                Some(MinMaxPlayer::Min) => min_count += 1,
                None => {}
            }
            if game.token_at(col, row).is_some() {
                assert!(row < game.heights[col as usize]);
                in_column += 1;
            } else {
                assert!(row >= game.heights[col as usize]);
            }
        }
        assert_eq!(in_column, game.heights[col as usize]);
    }
    assert!((max_count - min_count).abs() <= 1);
    assert_eq!((max_count + min_count) as usize, moves_played);
    if game.outcome().is_none() {
        assert!(!game.legal_moves().is_empty());
    }
    if game.legal_moves().is_empty() {
        assert!(game.outcome().is_some());
    }
}

#[test]
fn invariant_holds_along_whole_games() {
    for seed in 1..40u64 {
        let first = if seed % 2 == 0 { MinMaxPlayer::Max } else { MinMaxPlayer::Min };
        let mut game = ConnectFourState::new(first);
        let mut x = seed;
        let mut played = 0usize;
        check_invariant(&game, played);
        loop {
            let moves = game.legal_moves();
            if moves.is_empty() {
                break;
            }
            x = x.wrapping_mul(6364136223846793005).wrapping_add(1442695040888963407);
            let mv = moves[((x >> 33) % moves.len() as u64) as usize];
            let mover = game.current_player;
            game = game.with_move(&mv).unwrap();
            played += 1;
            assert_eq!(game.current_player, mover.opponent());
            check_invariant(&game, played);
            if let Some(Outcome::Win(p)) = game.outcome() {
                assert_eq!(p, mover);
                break;
            }
        }
        assert!(game.outcome().is_some());
    }
}
