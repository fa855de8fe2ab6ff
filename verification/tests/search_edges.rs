use connect_four::ai::search::deepening_allowed;
use connect_four::ai::{minimax, minimax_pvs, GameState, MinMaxPlayer, Outcome, SearchConfig};
use connect_four::bench::{play_one_game, RunConfig};
use connect_four::engine::game_state::{ConnectFourState, HeuristicVersion};
use connect_four::engine::moves::Move;

/// A game that never ends and has no moves: it breaks the contract of
/// `GameState`, and the search falls back to its heuristic.
#[derive(Debug, Clone)]
struct Stuck {
    value: i32,
}

impl GameState for Stuck {
    type Move = u8;
    type MoveError = ();

    fn current_player(&self) -> MinMaxPlayer {
        MinMaxPlayer::Max
    }

    fn legal_moves(&self) -> Vec<u8> {
        vec![]
    }

    fn with_move(&self, _mv: &u8) -> Result<Self, ()> {
        Err(())
    }

    fn outcome(&self) -> Option<Outcome> {
        None
    }

    fn evaluate(&self) -> i32 {
        self.value
    }
}

#[test]
fn state_without_moves_is_scored_by_its_heuristic() {
    let s = Stuck { value: 37 };
    for cfg in [SearchConfig::new(3), SearchConfig::new_alpha_beta(5)] {
        let r = minimax(&s, &cfg);
        assert_eq!(r.best_move, None);
        assert_eq!(r.score, 37);
        assert_eq!(r.nodes_visited, 1);
        let p = minimax_pvs(&s, &cfg);
        assert_eq!(p.best_move, None);
        assert_eq!(p.score, 37);
    }
}

#[test]
fn pvs_at_depth_zero_takes_any_window_and_value() {
    let s = Stuck { value: i32::MAX };
    let cfg = SearchConfig::new(0).with_alpha_beta(true, i32::MAX, i32::MIN);
    let r = minimax_pvs(&s, &cfg);
    assert_eq!(r.score, i32::MAX);
    assert_eq!(r.best_move, None);
    assert_eq!(r.nodes_visited, 1);
}

#[test]
fn deepening_follows_the_budget() {
    assert!(deepening_allowed(100, 10, 90));
    assert!(!deepening_allowed(100, 10, 91));
    assert!(!deepening_allowed(100, 100, 0));
    assert!(!deepening_allowed(100, 150, 0));
    assert!(deepening_allowed(100, 0, 0));
}

#[test]
fn each_move_of_a_game_visits_two_states_or_more() {
    for alpha_beta in [true, false] {
        let cfg = RunConfig {
            games: 1,
            depth: 2,
            time_ms: None,
            alpha_beta,
            heuristic_min: HeuristicVersion::V2,
            heuristic_max: HeuristicVersion::V1,
        };
        let stats = play_one_game(&cfg, MinMaxPlayer::Min);
        assert!(stats.total_nodes >= 2 * stats.moves as u64);
    }
}

#[test]
fn exchanging_the_pieces_negates_the_heuristic() {
    let mut game = ConnectFourState::new(MinMaxPlayer::Max);
    for c in [3u8, 3, 2, 4, 4, 1, 5, 5, 0] {
        game = game.with_move(&Move::new(c).unwrap()).unwrap();
    }
    let mut swapped = game.clone();
    swapped.player1_board = game.player2_board;
    swapped.player2_board = game.player1_board;
    assert_ne!(game.heuristic_v2(), 0);
    assert_eq!(swapped.heuristic_v2(), -game.heuristic_v2());
}

/// A game given as an explicit tree: inner nodes list their children, leaves
/// hold the heuristic value of a position without moves.
#[derive(Debug, Clone)]
enum Tree {
    Leaf(i32),
    Inner(Vec<Tree>),
}

#[derive(Debug, Clone)]
struct TreeState {
    node: Tree,
    to_move: MinMaxPlayer,
}

impl GameState for TreeState {
    type Move = usize;
    type MoveError = ();

    fn current_player(&self) -> MinMaxPlayer {
        self.to_move
    }

    fn legal_moves(&self) -> Vec<usize> {
        match &self.node {
            Tree::Leaf(_) => vec![],
            Tree::Inner(children) => (0..children.len()).collect(),
        }
    }

    fn with_move(&self, mv: &usize) -> Result<Self, ()> {
        match &self.node {
            Tree::Inner(children) if *mv < children.len() => Ok(TreeState {
                node: children[*mv].clone(),
                to_move: match self.to_move {
                    MinMaxPlayer::Max => MinMaxPlayer::Min,
                    MinMaxPlayer::Min => MinMaxPlayer::Max,
                },
            }),
            _ => Err(()),
        }
    }

    fn outcome(&self) -> Option<Outcome> {
        None
    }

    fn evaluate(&self) -> i32 {
        match &self.node {
            Tree::Leaf(v) => *v,
            Tree::Inner(_) => 0,
        }
    }
}

fn leaf(v: i32) -> Tree {
    Tree::Leaf(v)
}

fn inner(children: Vec<Tree>) -> Tree {
    Tree::Inner(children)
}

#[test]
fn pvs_keeps_the_minimax_result_on_a_small_tree() {
    // [[[[[-1]]]], [[[[1]]], [[[-1, 0], [-1, 1]]]]], Max to move, 5 plies.
    let tree = inner(vec![
        inner(vec![inner(vec![inner(vec![inner(vec![leaf(-1)])])])]),
        inner(vec![
            inner(vec![inner(vec![inner(vec![leaf(1)])])]),
            inner(vec![inner(vec![
                inner(vec![leaf(-1), leaf(0)]),
                inner(vec![leaf(-1), leaf(1)]),
            ])]),
        ]),
    ]);
    let state = TreeState { node: tree, to_move: MinMaxPlayer::Max };
    let plain = minimax(&state, &SearchConfig::new(5));
    assert_eq!(plain.score, 0);
    assert_eq!(plain.best_move, Some(1));
    let pruned = minimax(&state, &SearchConfig::new_alpha_beta(5));
    let pvs = minimax_pvs(&state, &SearchConfig::new_alpha_beta(5));
    assert_eq!((pruned.score, pruned.best_move), (0, Some(1)));
    assert_eq!((pvs.score, pvs.best_move), (0, Some(1)));
}
