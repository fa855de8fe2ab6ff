//! The logic of the self-play benchmark: configuration, one game between two
//! searching players, and the totals over many games.
use vstd::prelude::*;
use vstd::std_specs::convert::FromSpecImpl;
use crate::ai::game_state::GameState;
use crate::ai::outcome::Outcome;
use crate::ai::player::MinMaxPlayer;
use crate::ai::search::{ab_result, iterative_minimax, minimax, SearchConfig};
use crate::ai::value::{
    best_move_spec, child, lemma_best_move_exists, lemma_saturate_add, minimax_value, saturate,
};
use crate::engine::bitboard::BitBoard;
use crate::engine::moves::Move;
use crate::engine::reachable::{
    lemma_finished_game_length, lemma_initial_well_formed, lemma_move_keeps_well_formed, well_formed,
};
use crate::engine::game_state::{
    heights_in_range, heuristic_slot, lemma_connect_four_searchable, lemma_move_counts, total_height,
    ConnectFourState, HeuristicVersion,
};

verus! {

broadcast use vstd::array::group_array_axioms;

/// The options of a benchmark run, as given on the command line.
pub struct Options {
    /// Number of games to run.
    pub games: u32,
    /// Maximum search depth.
    pub depth: u32,
    /// Time limit per move in milliseconds, if any.
    pub time_ms: Option<u64>,
    /// File the results are written to.
    pub output: String,
    /// Whether alpha-beta pruning is enabled.
    pub alpha_beta: bool,
    /// Heuristic version name for the Min player.
    pub heuristic_min: String,
    /// Heuristic version name for the Max player.
    pub heuristic_max: String,
}

/// The configuration of a benchmark run.
#[derive(Clone, PartialEq, Eq, Debug)]
pub struct RunConfig {
    pub games: u32,
    pub depth: u32,
    pub time_ms: Option<u64>,
    pub alpha_beta: bool,
    pub heuristic_min: HeuristicVersion,
    pub heuristic_max: HeuristicVersion,
}

/// Who won a game.
#[derive(Debug, Clone, PartialEq, Eq, Structural)]
pub enum Winner {
    Max,
    Min,
    Draw,
}

/// The winner named by an outcome.
pub open spec fn winner_of(outcome: Outcome) -> Winner {
    match outcome {
        Outcome::Win(MinMaxPlayer::Max) => Winner::Max,
        Outcome::Win(MinMaxPlayer::Min) => Winner::Min,
        Outcome::Draw => Winner::Draw,
    }
}

impl From<&Outcome> for Winner {
    fn from(outcome: &Outcome) -> (w: Winner) {
        match outcome {
            Outcome::Win(MinMaxPlayer::Max) => Winner::Max,
            Outcome::Win(MinMaxPlayer::Min) => Winner::Min,
            Outcome::Draw => Winner::Draw,
        }
    }
}

impl FromSpecImpl<&Outcome> for Winner {
    open spec fn obeys_from_spec() -> bool {
        true
    }

    open spec fn from_spec(outcome: &Outcome) -> Winner {
        winner_of(*outcome)
    }
}

/// The statistics of one benchmark game.
pub struct GameStats {
    pub winner: Winner,
    pub moves: u32,
    pub total_nodes: u64,
    pub total_millis: u128,
}

/// The win counts of a benchmark run.
#[derive(Clone, Copy, Debug, PartialEq, Eq, Structural)]
pub struct WinCounts {
    pub max_wins: u32,
    pub min_wins: u32,
    pub draws: u32,
}

impl WinCounts {
    /// No game counted yet.
    pub fn new() -> (c: Self)
        ensures
            c == (WinCounts { max_wins: 0, min_wins: 0, draws: 0 }),
    {
        WinCounts { max_wins: 0, min_wins: 0, draws: 0 }
    }

    /// The count that `winner` adds to.
    pub open spec fn count_of(self, winner: Winner) -> u32 {
        match winner {
            Winner::Max => self.max_wins,
            Winner::Min => self.min_wins,
            Winner::Draw => self.draws,
        }
    }
}

/// Counts one finished game: the count of its winner grows by one and the
/// other two stay.
pub fn aggregate_results(counts: &mut WinCounts, winner: &Winner)
    requires
        old(counts).count_of(*winner) < u32::MAX,
    ensures
        final(counts).count_of(*winner) == old(counts).count_of(*winner) + 1,
        *final(counts) == (match *winner {
            Winner::Max => WinCounts { max_wins: (old(counts).max_wins + 1) as u32, ..*old(counts) },
            Winner::Min => WinCounts { min_wins: (old(counts).min_wins + 1) as u32, ..*old(counts) },
            Winner::Draw => WinCounts { draws: (old(counts).draws + 1) as u32, ..*old(counts) },
        }),
{
    match winner {
        Winner::Max => counts.max_wins += 1,
        Winner::Min => counts.min_wins += 1,
        Winner::Draw => counts.draws += 1,
    }
}

/// The heuristic version a name selects: `"v2"` selects `V2`, and every
/// other name (`"v1"` among them) the baseline `V1`.
pub open spec fn heuristic_named(name: Seq<char>) -> HeuristicVersion {
    if name == seq!['v', '2'] {
        HeuristicVersion::V2
    } else {
        HeuristicVersion::V1
    }
}

/// Parses a heuristic name into a `HeuristicVersion`: `"v1"` is `V1`,
/// `"v2"` is `V2`, and anything else falls back to `V1`.
pub fn parse_heuristic(s: &str) -> (h: HeuristicVersion)
    ensures
        h == heuristic_named(s@),
{
    let bytes = s.as_bytes();
    let ghost v2 = seq!['v', '2'];
    proof {
        assert(vstd::utf8::is_ascii_chars(v2));
        vstd::utf8::is_ascii_chars_encode_utf8(v2);
        assert(vstd::utf8::encode_utf8(v2) =~= seq![118u8, 50u8]);
        vstd::utf8::encode_utf8_decode_utf8(v2);
        vstd::utf8::encode_utf8_decode_utf8(s@);
    }
    if bytes.len() == 2 && bytes[0] == 118 && bytes[1] == 50 {
        assert(bytes@ =~= seq![118u8, 50u8]);
        HeuristicVersion::V2
    } else {
        HeuristicVersion::V1
    }
}

impl RunConfig {
    /// The run configuration of the given options, with the heuristic names parsed.
    pub fn from(options: &Options) -> (c: Self)
        ensures
            c.games == options.games,
            c.depth == options.depth,
            c.time_ms == options.time_ms,
            c.alpha_beta == options.alpha_beta,
            c.heuristic_min == heuristic_named(options.heuristic_min@),
            c.heuristic_max == heuristic_named(options.heuristic_max@),
    {
        RunConfig {
            games: options.games,
            depth: options.depth,
            time_ms: options.time_ms,
            alpha_beta: options.alpha_beta,
            heuristic_min: parse_heuristic(options.heuristic_min.as_str()),
            heuristic_max: parse_heuristic(options.heuristic_max.as_str()),
        }
    }
}

/// The player who starts game number `x`: Max for even games, Min for odd ones.
pub fn get_starting_player(x: u32) -> (p: MinMaxPlayer)
    ensures
        p == (if x % 2 == 0 {
            MinMaxPlayer::Max
        } else {
            MinMaxPlayer::Min
        }),
{
    match x % 2 == 0 {
        true => MinMaxPlayer::Max,
        false => MinMaxPlayer::Min,
    }
}

/// The search configuration of a run: its depth and time budget, the full
/// window, and pruning as the run asks.
pub fn build_search_config(config: &RunConfig) -> (sc: SearchConfig)
    ensures
        sc.depth == config.depth,
        sc.alpha == i32::MIN,
        sc.beta == i32::MAX,
        sc.use_alpha_beta == config.alpha_beta,
        sc.time_ms == config.time_ms,
{
    let mut sc = SearchConfig::new(config.depth);
    if config.alpha_beta {
        sc = sc.with_alpha_beta(true, i32::MIN, i32::MAX);
    }
    sc.time_ms = config.time_ms;
    sc
}

/// Total milliseconds of the first `n` games.
pub open spec fn millis_sum(games: Seq<GameStats>, n: int) -> int
    decreases n,
{
    if n <= 0 {
        0
    } else {
        millis_sum(games, n - 1) + games[n - 1].total_millis
    }
}

/// Total nodes of the first `n` games.
pub open spec fn nodes_sum(games: Seq<GameStats>, n: int) -> int
    decreases n,
{
    if n <= 0 {
        0
    } else {
        nodes_sum(games, n - 1) + games[n - 1].total_nodes
    }
}

/// Total moves of the first `n` games.
pub open spec fn moves_sum(games: Seq<GameStats>, n: int) -> int
    decreases n,
{
    if n <= 0 {
        0
    } else {
        moves_sum(games, n - 1) + games[n - 1].moves
    }
}

/// The partial sums only grow.
proof fn lemma_sums_grow(games: Seq<GameStats>, i: int, n: int)
    requires
        0 <= i <= n,
    ensures
        millis_sum(games, i) <= millis_sum(games, n),
        nodes_sum(games, i) <= nodes_sum(games, n),
        moves_sum(games, i) <= moves_sum(games, n),
    decreases n - i,
{
    if i < n {
        lemma_sums_grow(games, i, n - 1);
    }
}

/// The totals over `games`: milliseconds, nodes and moves.
pub fn aggregate_totals(games: &[GameStats]) -> (totals: (u128, u64, u64))
    requires
        millis_sum(games@, games@.len() as int) <= u128::MAX,
        nodes_sum(games@, games@.len() as int) <= u64::MAX,
        moves_sum(games@, games@.len() as int) <= u64::MAX,
    ensures
        totals.0 == millis_sum(games@, games@.len() as int),
        totals.1 == nodes_sum(games@, games@.len() as int),
        totals.2 == moves_sum(games@, games@.len() as int),
{
    let mut ms: u128 = 0;
    let mut nodes: u64 = 0;
    let mut moves: u64 = 0;
    let mut i: usize = 0;
    while i < games.len()
        invariant
            i <= games@.len(),
            millis_sum(games@, games@.len() as int) <= u128::MAX,
            nodes_sum(games@, games@.len() as int) <= u64::MAX,
            moves_sum(games@, games@.len() as int) <= u64::MAX,
            ms == millis_sum(games@, i as int),
            nodes == nodes_sum(games@, i as int),
            moves == moves_sum(games@, i as int),
        decreases games@.len() - i,
    {
        proof {
            lemma_sums_grow(games@, i + 1, games@.len() as int);
        }
        let game = &games[i];
        ms = ms + game.total_millis;
        nodes = nodes + game.total_nodes;
        moves = moves + game.moves as u64;
        i += 1;
    }
    (ms, nodes, moves)
}

/// The state a benchmark game starts from: the empty board with `p` to move
/// and the run's heuristic for each player.
pub open spec fn benchmark_start(cfg: RunConfig, p: MinMaxPlayer) -> ConnectFourState {
    ConnectFourState {
        player_heuristic: [cfg.heuristic_max, cfg.heuristic_min],
        ..ConnectFourState::initial(p)
    }
}

/// Plays at most `fuel` moves from `s`, each the move minimax picks
/// `depth` plies deep, and stops at a finished game: the last state reached
/// and the number of moves played.
pub open spec fn self_play(s: ConnectFourState, depth: nat, fuel: nat) -> (ConnectFourState, nat)
    decreases fuel,
{
    if fuel == 0 || s.outcome_spec() is Some {
        (s, 0)
    } else {
        match best_move_spec(s, depth) {
            Some(m) => {
                let (last, n) = self_play(child(s, m), depth, (fuel - 1) as nat);
                (last, n + 1)
            },
            None => (s, 0),
        }
    }
}

/// The states visited in total by the searches of the game `self_play`
/// plays, each search being alpha-beta on the full window, pruning when
/// `prune` is set.
pub open spec fn self_play_nodes(s: ConnectFourState, depth: nat, prune: bool, fuel: nat) -> nat
    decreases fuel,
{
    if fuel == 0 || s.outcome_spec() is Some {
        0
    } else {
        match best_move_spec(s, depth) {
            Some(m) => ab_result(s, depth, i32::MIN, i32::MAX, prune).2 + self_play_nodes(
                child(s, m),
                depth,
                prune,
                (fuel - 1) as nat,
            ),
            None => 0,
        }
    }
}

/// The state reached from `s` by playing `ms` in order.
pub open spec fn replay(s: ConnectFourState, ms: Seq<Move>) -> ConnectFourState
    decreases ms.len(),
{
    if ms.len() == 0 {
        s
    } else {
        child(replay(s, ms.drop_last()), ms.last())
    }
}

/// Move `i` of `ms`, played from `s`, is a legal move of a game not yet over,
/// and reaches the minimax value of its position at some depth from 1 to
/// `max_depth`.
pub open spec fn sound_step(s: ConnectFourState, ms: Seq<Move>, i: int, max_depth: nat) -> bool {
    let p = replay(s, ms.take(i));
    &&& p.outcome_spec() is None
    &&& p.legal_moves_spec().contains(ms[i])
    &&& exists|d: nat|
        1 <= d <= max_depth && #[trigger] minimax_value(child(p, ms[i]), (d - 1) as nat)
            == minimax_value(p, d)
}

/// Every move of `ms` is a sound step from `s`.
pub open spec fn sound_replay(s: ConnectFourState, ms: Seq<Move>, max_depth: nat) -> bool {
    forall|i: int| 0 <= i < ms.len() ==> #[trigger] sound_step(s, ms, i, max_depth)
}

/// Appending a move keeps the earlier steps and the state they reach.
proof fn lemma_replay_push(s: ConnectFourState, ms: Seq<Move>, m: Move, max_depth: nat)
    ensures
        replay(s, ms.push(m)) == child(replay(s, ms), m),
        forall|i: int|
            0 <= i < ms.len() ==> #[trigger] sound_step(s, ms.push(m), i, max_depth) == sound_step(
                s,
                ms,
                i,
                max_depth,
            ),
        sound_step(s, ms.push(m), ms.len() as int, max_depth) == {
            let p = replay(s, ms);
            &&& p.outcome_spec() is None
            &&& p.legal_moves_spec().contains(m)
            &&& exists|d: nat|
                1 <= d <= max_depth && #[trigger] minimax_value(child(p, m), (d - 1) as nat)
                    == minimax_value(p, d)
        },
{
    assert(ms.push(m).drop_last() =~= ms);
    assert(ms.push(m).take(ms.len() as int) =~= ms);
    assert forall|i: int| 0 <= i < ms.len() implies #[trigger] sound_step(s, ms.push(m), i, max_depth)
        == sound_step(s, ms, i, max_depth) by {
        assert(ms.push(m).take(i) =~= ms.take(i));
    }
}

/// Plays one game between two searching players from the empty board, with
/// `starting_player` to move first, and returns who won, how many moves were
/// played, and the nodes and milliseconds the searches spent (each total
/// saturating at its type's maximum).
///
/// A game lasts at least seven moves. Every search visits the position and
/// at least one child. Whatever the
/// clock does, the moves played are legal moves of a game not yet over, each
/// reaching the minimax value of its position at some depth from 1 to the
/// run's depth, and the game they play ends in the reported outcome. Without
/// a time budget every move is the one minimax picks at the run's depth, so
/// the game is the one `self_play` describes and the states visited are those
/// `self_play_nodes` counts; with a budget each move comes from iterative
/// deepening, whose depth depends on the time.
pub fn play_one_game(cfg: &RunConfig, starting_player: MinMaxPlayer) -> (stats: GameStats)
    requires
        cfg.depth >= 1,
        cfg.time_ms != Some(0u64),
    ensures
        7 <= stats.moves <= 42,
        stats.total_nodes >= 2 * stats.moves,
        exists|ms: Seq<Move>|
            {
                &&& ms.len() == stats.moves
                &&& #[trigger] sound_replay(benchmark_start(*cfg, starting_player), ms, cfg.depth as nat)
                &&& replay(benchmark_start(*cfg, starting_player), ms).outcome_spec() matches Some(o)
                &&& stats.winner == winner_of(o)
            },
        cfg.time_ms is None ==> ({
            let (last, n) = self_play(benchmark_start(*cfg, starting_player), cfg.depth as nat, 42);
            &&& last.outcome_spec() is Some
            &&& stats.winner == winner_of(last.outcome_spec()->0)
            &&& stats.moves == n
            &&& stats.total_nodes == saturate(
                self_play_nodes(benchmark_start(*cfg, starting_player), cfg.depth as nat, cfg.alpha_beta, 42),
            )
        }),
{
    let mut game = ConnectFourState::new(starting_player);
    game.set_player_heuristic(MinMaxPlayer::Min, cfg.heuristic_min);
    game.set_player_heuristic(MinMaxPlayer::Max, cfg.heuristic_max);
    let ghost start = game;
    let ghost depth = cfg.depth as nat;
    proof {
        assert(game.heights@ =~= seq![0u8, 0u8, 0u8, 0u8, 0u8, 0u8, 0u8]);
        assert(game.player_heuristic =~= benchmark_start(*cfg, starting_player).player_heuristic);
        assert(game.heights =~= benchmark_start(*cfg, starting_player).heights);
        assert(start == benchmark_start(*cfg, starting_player));
        lemma_initial_well_formed(starting_player, [cfg.heuristic_max, cfg.heuristic_min]);
    }
    let mut total_nodes = 0u64;
    let mut total_millis = 0u128;
    let mut moves = 0u32;
    let ghost mut played: Seq<Move> = Seq::empty();
    let ghost mut spent: nat = 0;
    while game.outcome().is_none()
        invariant
            cfg.depth >= 1,
            cfg.time_ms != Some(0u64),
            depth == cfg.depth,
            heights_in_range(game.heights@),
            total_height(game.heights@) == moves,
            well_formed(game),
            moves <= 42,
            total_nodes >= 2 * moves,
            moves == 0 ==> game == start,
            played.len() == moves,
            game == replay(start, played),
            sound_replay(start, played, depth),
            cfg.time_ms is None ==> ({
                let (last, n) = self_play(start, depth, 42);
                &&& self_play(game, depth, (42 - moves) as nat) == (last, (n - moves) as nat)
                &&& n >= moves
                &&& total_nodes == saturate(spent)
                &&& self_play_nodes(start, depth, cfg.alpha_beta, 42) == spent + self_play_nodes(
                    game,
                    depth,
                    cfg.alpha_beta,
                    (42 - moves) as nat,
                )
            }),
        decreases 42 - moves,
    {
        let search_cfg = build_search_config(cfg);
        proof {
            lemma_connect_four_searchable(game, depth);
            lemma_move_counts(game, game.legal_moves_spec()[0]);
            lemma_best_move_exists(game, depth);
        }
        let search_result = if let Some(_) = cfg.time_ms {
            let r = iterative_minimax(&game, &search_cfg);
            proof {
                lemma_connect_four_searchable(game, r.depth_reached as nat);
                lemma_best_move_exists(game, r.depth_reached as nat);
            }
            r
        } else {
            minimax(&game, &search_cfg)
        };
        let mv = search_result.best_move.expect("must have a move");
        proof {
            let k = choose|k: int| 0 <= k < game.legal_moves_spec().len() && game.legal_moves_spec()[k] == mv;
            crate::engine::game_state::lemma_legal_prefix(game.heights@, 7);
            lemma_move_counts(game, mv);
        }
        let ghost before = game;
        proof {
            lemma_replay_push(start, played, mv, depth);
            let d = search_result.depth_reached as nat;
            assert(1 <= d <= depth);
            assert(minimax_value(child(game, mv), (d - 1) as nat) == minimax_value(game, d));
            assert(sound_step(start, played.push(mv), played.len() as int, depth));
            assert forall|i: int| 0 <= i < played.push(mv).len() implies #[trigger] sound_step(
                start,
                played.push(mv),
                i,
                depth,
            ) by {
                if i < played.len() {
                    assert(sound_step(start, played, i, depth));
                }
            }
            played = played.push(mv);
        }
        game = game.with_move(&mv).unwrap();
        moves += 1;
        proof {
            if cfg.time_ms is None {
                let e = ab_result(before, depth, i32::MIN, i32::MAX, cfg.alpha_beta);
                assert(best_move_spec(before, depth) == Some(mv));
                assert(self_play_nodes(before, depth, cfg.alpha_beta, (42 - (moves - 1)) as nat) == e.2
                    + self_play_nodes(child(before, mv), depth, cfg.alpha_beta, (42 - moves) as nat));
                lemma_saturate_add(spent, e.2);
                spent = spent + e.2;
            }
        }
        total_nodes = total_nodes.saturating_add(search_result.nodes_visited);
        total_millis = total_millis.saturating_add(search_result.millis_spent);
        proof {
            assert(game == child(before, mv));
            lemma_move_keeps_well_formed(before, mv.column);
        }
    }
    let winner = Winner::from(&game.outcome().unwrap());
    proof {
        lemma_finished_game_length(game);
    }
    assert(played.len() == moves && sound_replay(start, played, depth));
    proof {
        if moves == 0 {
            BitBoard::lemma_empty_spec();
            assert(start.heights@ =~= seq![0u8, 0u8, 0u8, 0u8, 0u8, 0u8, 0u8]);
            crate::engine::game_state::lemma_empty_board_not_over(start);
        }
    }
    GameStats { winner, moves, total_nodes, total_millis }
}

/// Moves keep the heuristics chosen for the two players.
proof fn lemma_replay_keeps_heuristics(s: ConnectFourState, ms: Seq<Move>)
    ensures
        replay(s, ms).player_heuristic == s.player_heuristic,
    decreases ms.len(),
{
    if ms.len() > 0 {
        lemma_replay_keeps_heuristics(s, ms.drop_last());
    }
}

/// In every position of a benchmark game, the player to move evaluates with
/// the heuristic the run names for it: `heuristic_max` when `Max` is to move
/// and `heuristic_min` when `Min` is; `V1` gives 0 and `V2` the window
/// heuristic.
pub proof fn lemma_benchmark_heuristics(cfg: RunConfig, p: MinMaxPlayer, ms: Seq<Move>)
    ensures
        ({
            let s = replay(benchmark_start(cfg, p), ms);
            let named = if s.current_player == MinMaxPlayer::Max {
                cfg.heuristic_max
            } else {
                cfg.heuristic_min
            };
            &&& s.player_heuristic@[heuristic_slot(MinMaxPlayer::Max)] == cfg.heuristic_max
            &&& s.player_heuristic@[heuristic_slot(MinMaxPlayer::Min)] == cfg.heuristic_min
            &&& s.heuristic_spec() == match named {
                HeuristicVersion::V1 => 0,
                HeuristicVersion::V2 => s.heuristic_v2_spec(),
            }
        }),
{
    lemma_replay_keeps_heuristics(benchmark_start(cfg, p), ms);
}

} // verus!
