use connect_four::ai::{
    iterative_minimax, minimax, minimax_pvs, GameState, MinMaxPlayer, Outcome, SearchConfig,
    WIN_SCORE,
};
use connect_four::engine::game_state::{ConnectFourState, HeuristicVersion};
use connect_four::engine::moves::Move;

fn position(columns: &[u8], first: MinMaxPlayer) -> ConnectFourState {
    let mut game = ConnectFourState::new(first);
    game.set_player_heuristic(MinMaxPlayer::Max, HeuristicVersion::V2);
    game.set_player_heuristic(MinMaxPlayer::Min, HeuristicVersion::V2);
    for &c in columns {
        game = game.with_move(&Move::new(c).unwrap()).unwrap();
    }
    game
}

fn positions() -> Vec<ConnectFourState> {
    vec![
        position(&[], MinMaxPlayer::Max),
        position(&[3, 3, 2], MinMaxPlayer::Max),
        position(&[3, 2, 4, 4, 1], MinMaxPlayer::Min),
        position(&[0, 6, 3, 3, 3, 2, 4, 1], MinMaxPlayer::Max),
        position(&[3, 3, 3, 3, 2, 4, 5, 1, 1], MinMaxPlayer::Min),
    ]
}

#[test]
fn pruning_keeps_score_and_move_on_connect_four() {
    for game in positions() {
        for depth in 1..=5u32 {
            let plain = minimax(&game, &SearchConfig::new(depth));
            let pruned = minimax(&game, &SearchConfig::new_alpha_beta(depth));
            assert_eq!(plain.score, pruned.score);
            assert_eq!(plain.best_move, pruned.best_move);
            assert!(pruned.nodes_visited <= plain.nodes_visited);
            assert_eq!(plain.depth_reached, depth);
        }
    }
}

#[test]
fn pvs_matches_minimax_on_connect_four() {
    for game in positions() {
        for depth in 1..=5u32 {
            let plain = minimax(&game, &SearchConfig::new_alpha_beta(depth));
            let pvs = minimax_pvs(&game, &SearchConfig::new_alpha_beta(depth));
            assert_eq!(plain.score, pvs.score);
            assert_eq!(plain.best_move, pvs.best_move);
            let pvs_plain = minimax_pvs(&game, &SearchConfig::new(depth));
            assert_eq!(plain.score, pvs_plain.score);
            assert_eq!(plain.best_move, pvs_plain.best_move);
        }
    }
}

#[test]
fn iterative_without_budget_matches_minimax_score() {
    for game in positions() {
        for depth in 1..=4u32 {
            let plain = minimax(&game, &SearchConfig::new_alpha_beta(depth));
            let deep = iterative_minimax(&game, &SearchConfig::new_alpha_beta(depth));
            assert_eq!(deep.depth_reached, depth);
            assert_eq!(plain.score, deep.score);
            assert_eq!(plain.best_move.is_some(), deep.best_move.is_some());
            let m = deep.best_move.unwrap();
            let after = game.with_move(&m).unwrap();
            let value = minimax(&after, &SearchConfig::new(depth - 1)).score;
            assert_eq!(value, plain.score);
        }
    }
}

#[test]
fn depth_zero_search_is_the_evaluation() {
    for game in positions() {
        for cfg in [
            SearchConfig::new(0),
            SearchConfig::new_alpha_beta(0),
            SearchConfig::new(0).with_alpha_beta(true, -5, 5),
        ] {
            let r = minimax(&game, &cfg);
            assert_eq!(r.best_move, None);
            assert_eq!(r.nodes_visited, 1);
            assert_eq!(r.score, game.evaluate());
        }
    }
}

#[test]
fn finished_game_is_scored_by_its_outcome() {
    // Max drops four pieces in column 0 while Min plays column 1.
    let game = position(&[0, 1, 0, 1, 0, 1, 0], MinMaxPlayer::Max);
    assert_eq!(game.outcome(), Some(Outcome::Win(MinMaxPlayer::Max)));
    for depth in 0..4u32 {
        let r = minimax(&game, &SearchConfig::new_alpha_beta(depth).with_alpha_beta(true, 0, 10));
        assert_eq!(r.best_move, None);
        assert_eq!(r.nodes_visited, 1);
        assert_eq!(r.score, WIN_SCORE);
    }
}

#[test]
fn open_positions_always_have_moves() {
    for game in positions() {
        assert!(game.outcome().is_none());
        assert!(!game.legal_moves().is_empty());
    }
}
