use std::time::Instant;

use connect_four::ai::{
    iterative_minimax, minimax, GameState, MinMaxPlayer, Outcome, Player, SearchConfig,
    LOSS_SCORE, WIN_SCORE,
};

#[derive(Debug, Clone, Eq, PartialEq)]
enum MockMove {
    Left,
    Right,
}

#[derive(Debug, Clone)]
struct MockMoveError {}

#[derive(Debug, Clone, Eq, PartialEq, Hash)]
struct MockState {
    current_player: MinMaxPlayer,
    remaining_depth: u32,
    base_score: i32,
}

impl MockState {
    fn from(current_player: MinMaxPlayer, remaining_depth: u32, base_score: i32) -> Self {
        MockState { current_player, remaining_depth, base_score }
    }
}

impl GameState for MockState {
    type Move = MockMove;
    type MoveError = MockMoveError;

    fn current_player(&self) -> MinMaxPlayer {
        self.current_player
    }

    fn legal_moves(&self) -> Vec<Self::Move> {
        if self.remaining_depth == 0 {
            vec![]
        } else {
            vec![MockMove::Left, MockMove::Right]
        }
    }

    fn with_move(&self, mv: &Self::Move) -> Result<Self, Self::MoveError> {
        let mut state = self.clone();
        state.remaining_depth -= 1;
        state.current_player = state.current_player.opponent();
        match mv {
            MockMove::Left => state.base_score += 1,
            MockMove::Right => state.base_score -= 1,
        }
        Ok(state)
    }

    fn outcome(&self) -> Option<Outcome> {
        if self.remaining_depth > 0 {
            None
        } else if self.base_score > 0 {
            Some(Outcome::Win(MinMaxPlayer::Max))
        } else if self.base_score < 0 {
            Some(Outcome::Win(MinMaxPlayer::Min))
        } else {
            Some(Outcome::Draw)
        }
    }

    fn evaluate(&self) -> i32 {
        if let Some(outcome) = self.outcome() {
            match outcome {
                Outcome::Win(MinMaxPlayer::Max) => 1,
                Outcome::Win(MinMaxPlayer::Min) => -1,
                Outcome::Draw => 0,
            }
        } else {
            0
        }
    }
}

#[test]
fn default_search_config() {
    let context = SearchConfig::new(3);
    assert_eq!(context.depth, 3, "depth should be 3");
    assert_eq!(context.alpha, i32::MIN, "alpha should be {}", i32::MIN);
    assert_eq!(context.beta, i32::MAX, "beta should be {}", i32::MAX);
    assert_eq!(context.use_alpha_beta, false, "use_alpha_beta should be false");
}

#[test]
fn search_config_with_alpha_beta_enabled() {
    let mut context = SearchConfig::new(1);
    context = context.with_alpha_beta(true, 15, -25);
    assert_eq!(context.depth, 1, "depth should be 1");
    assert_eq!(context.alpha, 15, "alpha should be {}", 15);
    assert_eq!(context.beta, -25, "beta should be {}", -25);
    assert_eq!(context.use_alpha_beta, true, "use_alpha_beta should be true");
}

#[test]
fn depth_zero_max_wins() {
    let state = MockState::from(MinMaxPlayer::Max, 0, 2);
    let mv = minimax(&state, &SearchConfig::new(0));
    assert!(state.outcome().is_some());
    assert_eq!(mv.score, WIN_SCORE, "Max winning, score should have been {}", WIN_SCORE);
    assert_eq!(state.outcome().unwrap(), Outcome::Win(MinMaxPlayer::Max), "Max should have won at 0 depth")
}

#[test]
fn depth_zero_min_wins() {
    let state = MockState::from(MinMaxPlayer::Max, 0, -2);
    let mv = minimax(&state, &SearchConfig::new(0));
    assert!(state.outcome().is_some());
    assert_eq!(mv.score, LOSS_SCORE, "Min winning, score should have been {}", LOSS_SCORE);
    assert_eq!(state.outcome().unwrap(), Outcome::Win(MinMaxPlayer::Min), "Min should have won at 0 depth")
}

#[test]
fn depth_zero_draw() {
    let state = MockState::from(MinMaxPlayer::Max, 0, 0);
    let mv = minimax(&state, &SearchConfig::new(0));
    assert!(state.outcome().is_some());
    assert_eq!(mv.score, 0, "Draw score should have been 0");
    assert_eq!(state.outcome().unwrap(), Outcome::Draw, "Game should have ended in draw")
}

#[test]
fn depth_zero_non_terminal() {
    let state = MockState::from(MinMaxPlayer::Max, 1, 0);
    let mv = minimax(&state, &SearchConfig::new(0));
    assert_eq!(mv.score, 0, "Non terminal score should have been 0");
    assert!(state.outcome().is_none());
}

#[test]
fn depth_one_max_should_play_left() {
    let state = MockState::from(MinMaxPlayer::Max, 1, 0);
    let mv = minimax(&state, &SearchConfig::new(1));
    assert!(mv.best_move.is_some());
    assert_eq!(mv.best_move.unwrap(), MockMove::Left, "Max should have chosen left");
    assert_eq!(mv.score, WIN_SCORE, "Score for playing left should have been {}", WIN_SCORE);
    assert!(state.outcome().is_none());
}

#[test]
fn depth_one_max_should_play_left_with_pruning() {
    let state = MockState::from(MinMaxPlayer::Max, 1, 0);
    let mv = minimax(&state, &SearchConfig::new_alpha_beta(1));
    assert_eq!(mv.best_move.unwrap(), MockMove::Left, "Max should have chosen left");
    assert_eq!(mv.score, WIN_SCORE, "Score for playing left should have been {}", WIN_SCORE);
}

#[test]
fn depth_one_min_should_play_right() {
    let state = MockState::from(MinMaxPlayer::Min, 1, 0);
    let mv = minimax(&state, &SearchConfig::new(1));
    assert!(mv.best_move.is_some());
    assert_eq!(mv.best_move.unwrap(), MockMove::Right, "Min should have chosen right");
    assert_eq!(mv.score, LOSS_SCORE, "Score for playing right should have been {}", LOSS_SCORE);
    assert!(state.outcome().is_none());
}

#[test]
fn depth_one_min_should_play_right_with_pruning() {
    let state = MockState::from(MinMaxPlayer::Min, 1, 0);
    let mv = minimax(&state, &SearchConfig::new_alpha_beta(1));
    assert_eq!(mv.best_move.unwrap(), MockMove::Right, "Min should have chosen right");
    assert_eq!(mv.score, LOSS_SCORE, "Score for playing right should have been {}", LOSS_SCORE);
}

#[test]
fn depth_two_max_should_play_left_with_higher_min_score() {
    let state = MockState::from(MinMaxPlayer::Max, 2, 0);
    let mv = minimax(&state, &SearchConfig::new(2));
    assert!(mv.best_move.is_some());
    assert_eq!(mv.best_move.unwrap(), MockMove::Left, "Max should have chosen left");
    assert_eq!(mv.score, 0, "Score for playing left should have been 0");
    assert!(state.outcome().is_none());
}

#[test]
fn depth_two_max_should_play_left_with_higher_min_score_with_pruning() {
    let state = MockState::from(MinMaxPlayer::Max, 2, 0);
    let mv = minimax(&state, &SearchConfig::new_alpha_beta(2));
    assert_eq!(mv.best_move.unwrap(), MockMove::Left, "Max should have chosen left");
    assert_eq!(mv.score, 0, "Score for playing left should have been 0");
}

#[test]
fn alpha_beta_and_plain_return_same_score_for_mock_state() {
    let state = MockState::from(MinMaxPlayer::Max, 4, 0);
    for depth in 0..=4 {
        let no_pruning = minimax(&state, &SearchConfig::new(depth));
        let pruning = minimax(&state, &SearchConfig::new_alpha_beta(depth));
        assert_eq!(no_pruning.score, pruning.score, "scores should be same at  depth = {}", depth);
        assert!(pruning.nodes_visited <= no_pruning.nodes_visited, "No pruning should have visited more nodes");
    }
}

#[test]
fn test_alpha_beta_pruning_gives_same_score() {
    let mut no_pruning_state = MockState::from(MinMaxPlayer::Max, 4, 0);
    let mut pruning_state = MockState::from(MinMaxPlayer::Max, 4, 0);
    let no_pruning_config = SearchConfig::new(9);
    let pruning_config = SearchConfig::new_alpha_beta(9);
    while no_pruning_state.outcome().is_none() && pruning_state.outcome().is_none() {
        let no_pruning_result = minimax(&no_pruning_state, &no_pruning_config);
        let pruning_result = minimax(&pruning_state, &pruning_config);
        let no_pruning_move = no_pruning_result.best_move.expect("must have a move");
        let pruning_move = pruning_result.best_move.expect("must have a move");
        assert_eq!(pruning_move, no_pruning_move, "Moves should be the same");
        no_pruning_state = no_pruning_state.with_move(&no_pruning_move).unwrap();
        pruning_state = pruning_state.with_move(&pruning_move).unwrap();
    }
    assert_eq!(no_pruning_state.outcome(), pruning_state.outcome(), "Outcomes should be the same");
}

#[test]
fn test_iterative_deepening_with_time_per_move_not_exceeded() {
    let state = MockState::from(MinMaxPlayer::Max, 1, 0);
    let config = SearchConfig::new_alpha_beta(9).with_time_ms(Some(10));
    let start = Instant::now();
    let _result = iterative_minimax(&state, &config);
    let elapsed = start.elapsed();
    assert!(elapsed.as_millis() < 10, "One move should take less than 10 millis");
}

#[test]
fn test_iterative_deepening_vs_traditional_suggests_same_move() {
    let iterative_state = MockState::from(MinMaxPlayer::Max, 4, 0);
    let iterative_config = SearchConfig::new_alpha_beta(6).with_time_ms(Some(50));
    let state = MockState::from(MinMaxPlayer::Max, 4, 0);
    let config = SearchConfig::new_alpha_beta(6);
    let iterative_result = iterative_minimax(&iterative_state, &iterative_config);
    let result = minimax(&state, &config);
    assert!(iterative_result.best_move.is_some(), "Should return best move");
    assert!(result.best_move.is_some(), "Should return best move");
    assert_eq!(result.best_move, iterative_result.best_move, "Results should be the same");
}

#[test]
fn test_mock_state_evaluate() {
    let state = MockState::from(MinMaxPlayer::Max, 4, 0);
    assert_eq!(state.evaluate(), 0, "Should be non terminal state");
    let state = MockState::from(MinMaxPlayer::Max, 0, 5);
    assert_eq!(state.evaluate(), 1, "Terminal state should give score 1 for Max");
    let state = MockState::from(MinMaxPlayer::Min, 0, -5);
    assert_eq!(state.evaluate(), -1, "Terminal state should give score -1 for Min");
    let state = MockState::from(MinMaxPlayer::Min, 0, 0);
    assert_eq!(state.evaluate(), 0, "Terminal state should give score 0 for Draw");
}

#[test]
fn test_no_legal_moves_at_zero_depth() {
    let state = MockState::from(MinMaxPlayer::Max, 0, 0);
    assert!(state.legal_moves().is_empty(), "There should be no legal moves");
}

#[test]
fn player_opponent() {
    let min_player = MinMaxPlayer::Min;
    assert_eq!(min_player.opponent(), MinMaxPlayer::Max, "Min player opponent should be Max");
    let max_player = MinMaxPlayer::Max;
    assert_eq!(max_player.opponent(), MinMaxPlayer::Min, "Max player opponent should be Min");
}

#[test]
fn player_symbol() {
    let min_player = MinMaxPlayer::Min;
    assert_eq!(min_player.symbol(), 'O', "Min player symbol should be 'O'");
    let max_player = MinMaxPlayer::Max;
    assert_eq!(max_player.symbol(), 'X', "Max player symbol should be 'X'");
}
