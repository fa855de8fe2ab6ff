use connect_four::ai::{MinMaxPlayer, Outcome};
use connect_four::bench::{
    aggregate_results, aggregate_totals, build_search_config, get_starting_player,
    parse_heuristic, play_one_game, GameStats, Options, RunConfig, WinCounts, Winner,
};
use connect_four::engine::game_state::HeuristicVersion;

#[test]
fn test_parse_heuristics() {
    assert_eq!(parse_heuristic("v1"), HeuristicVersion::V1, "v1 should result HeuristicVersion::V1");
    assert_eq!(parse_heuristic("v2"), HeuristicVersion::V2, "v2 should result HeuristicVersion::V2");
}

#[test]
fn test_build_run_config() {
    let options = Options {
        games: 50,
        depth: 10,
        time_ms: Some(50),
        output: "my_output_file.json".to_string(),
        alpha_beta: true,
        heuristic_min: "v1".to_string(),
        heuristic_max: "v2".to_string(),
    };
    let run_config = RunConfig::from(&options);

    assert_eq!(run_config.games, 50);
    assert_eq!(run_config.depth, 10);
    assert_eq!(run_config.time_ms, Some(50));
    assert_eq!(run_config.heuristic_min, HeuristicVersion::V1);
    assert_eq!(run_config.heuristic_max, HeuristicVersion::V2);
    assert_eq!(run_config.alpha_beta, true);
}

#[test]
fn test_outcome() {
    let mut outcome = Outcome::Win(MinMaxPlayer::Max);
    assert_eq!(Winner::Max, Winner::from(&outcome));

    outcome = Outcome::Win(MinMaxPlayer::Min);
    assert_eq!(Winner::Min, Winner::from(&outcome));

    outcome = Outcome::Draw;
    assert_eq!(Winner::Draw, Winner::from(&outcome))
}

#[test]
fn test_play_one_game_normal() {
    let options = Options {
        games: 1,
        depth: 6,
        time_ms: None,
        output: "my_output_file.json".to_string(),
        alpha_beta: true,
        heuristic_min: "v1".to_string(),
        heuristic_max: "v2".to_string(),
    };
    let run_config = RunConfig::from(&options);
    let game_stats = play_one_game(&run_config, MinMaxPlayer::Max);
    assert!(game_stats.moves > 0, "We should have more than 0 moves");
    assert!(game_stats.total_nodes > 0, "We should have more than 0 nodes visited");
}

#[test]
fn test_play_one_game_iterative_deepening() {
    let options = Options {
        games: 1,
        depth: 100,
        time_ms: Some(50),
        output: "my_output_file.json".to_string(),
        alpha_beta: true,
        heuristic_min: "v2".to_string(),
        heuristic_max: "v2".to_string(),
    };
    let run_config = RunConfig::from(&options);
    let game_stats = play_one_game(&run_config, MinMaxPlayer::Max);
    assert!(game_stats.moves > 0, "We should have more than 0 moves");
    assert!(game_stats.total_nodes > 0, "We should have more than 0 nodes visited");
}

#[test]
fn test_starting_player() {
    assert_eq!(MinMaxPlayer::Max, get_starting_player(0), "Even player should be Max");
    assert_eq!(MinMaxPlayer::Min, get_starting_player(1), "Odd player should be Min");
}

#[test]
fn test_aggregate_results() {
    let mut run_result = WinCounts::new();
    assert_eq!(run_result.max_wins, 0, "Max should have zero wins");
    aggregate_results(&mut run_result, &Winner::Max);
    assert_eq!(run_result.max_wins, 1, "Max should have one win");

    assert_eq!(run_result.min_wins, 0, "Min should have zero wins");
    aggregate_results(&mut run_result, &Winner::Min);
    assert_eq!(run_result.min_wins, 1, "Min should have one win");

    assert_eq!(run_result.draws, 0, "There should be zero draws");
    aggregate_results(&mut run_result, &Winner::Draw);
    assert_eq!(run_result.draws, 1, "There shold be one draw")
}

#[test]
fn test_aggregate_totals() {
    let games = [
        GameStats {
            winner: Winner::Max,
            moves: 10,
            total_nodes: 34,
            total_millis: 234,
        },
        GameStats {
            winner: Winner::Min,
            moves: 17,
            total_nodes: 12,
            total_millis: 123,
        },
    ];
    let (ms, nodes, moves) = aggregate_totals(&games);
    assert_eq!(357, ms, "Total aggregate of ms should have been 357");
    assert_eq!(46, nodes, "Total aggregate of nodes should have been 46");
    assert_eq!(27, moves, "Total aggregate of moves should have been 27");
}

#[test]
fn parse_heuristic_falls_back_to_v1() {
    assert_eq!(parse_heuristic(""), HeuristicVersion::V1);
    assert_eq!(parse_heuristic("v3"), HeuristicVersion::V1);
    assert_eq!(parse_heuristic("V2"), HeuristicVersion::V1);
    assert_eq!(parse_heuristic("v22"), HeuristicVersion::V1);
}

#[test]
fn starting_player_alternates() {
    for x in 0..10u32 {
        let expected = if x % 2 == 0 { MinMaxPlayer::Max } else { MinMaxPlayer::Min };
        assert_eq!(get_starting_player(x), expected);
    }
    assert_eq!(get_starting_player(u32::MAX), MinMaxPlayer::Min);
}

#[test]
fn search_config_follows_the_run() {
    let cfg = RunConfig {
        games: 3,
        depth: 4,
        time_ms: Some(20),
        alpha_beta: false,
        heuristic_min: HeuristicVersion::V1,
        heuristic_max: HeuristicVersion::V2,
    };
    let sc = build_search_config(&cfg);
    assert_eq!(sc.depth, 4);
    assert_eq!(sc.time_ms, Some(20));
    assert!(!sc.use_alpha_beta);
    assert_eq!(sc.alpha, i32::MIN);
    assert_eq!(sc.beta, i32::MAX);

    let pruned = build_search_config(&RunConfig { alpha_beta: true, time_ms: None, ..cfg });
    assert!(pruned.use_alpha_beta);
    assert_eq!(pruned.time_ms, None);
}

#[test]
fn aggregate_totals_of_nothing_is_zero() {
    let games: [GameStats; 0] = [];
    assert_eq!(aggregate_totals(&games), (0, 0, 0));
}

#[test]
fn win_counts_only_touch_the_winner() {
    let mut counts = WinCounts { max_wins: 4, min_wins: 7, draws: 2 };
    aggregate_results(&mut counts, &Winner::Min);
    assert_eq!(counts, WinCounts { max_wins: 4, min_wins: 8, draws: 2 });
    aggregate_results(&mut counts, &Winner::Draw);
    assert_eq!(counts, WinCounts { max_wins: 4, min_wins: 8, draws: 3 });
}

#[test]
fn game_without_time_budget_is_repeatable() {
    let cfg = RunConfig {
        games: 1,
        depth: 3,
        time_ms: None,
        alpha_beta: true,
        heuristic_min: HeuristicVersion::V1,
        heuristic_max: HeuristicVersion::V1,
    };
    let a = play_one_game(&cfg, MinMaxPlayer::Min);
    let b = play_one_game(&cfg, MinMaxPlayer::Min);
    assert_eq!(a.winner, b.winner);
    assert_eq!(a.moves, b.moves);
    assert_eq!(a.total_nodes, b.total_nodes);
    assert!(a.moves >= 7 && a.moves <= 42);
    assert!(a.total_nodes >= a.moves as u64);
}

#[test]
fn pruning_does_not_change_the_game() {
    let pruned = RunConfig {
        games: 1,
        depth: 4,
        time_ms: None,
        alpha_beta: true,
        heuristic_min: HeuristicVersion::V2,
        heuristic_max: HeuristicVersion::V1,
    };
    let plain = RunConfig { alpha_beta: false, ..pruned.clone() };
    let a = play_one_game(&pruned, MinMaxPlayer::Max);
    let b = play_one_game(&plain, MinMaxPlayer::Max);
    assert_eq!(a.winner, b.winner);
    assert_eq!(a.moves, b.moves);
    assert!(a.total_nodes <= b.total_nodes);
}
