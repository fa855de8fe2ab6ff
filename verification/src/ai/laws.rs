//! How the searches relate: pruning, principal variation search and
//! iterative deepening all find what plain minimax finds.
use vstd::prelude::*;
use crate::ai::game_state::GameState;
use crate::ai::search::{deepening_trace, time_left, exact_window, iterative_post, pvs_post, search_result_post, SearchConfig, SearchResult};
use crate::ai::value::{
    best_move_hinted, best_move_spec, child, hinted_order, init_score, lemma_first_reaching_head,
    lemma_position_upto, minimax_value, outcome_score, position_upto,
};

verus! {

/// Alpha-beta pruning on the full window does not change the result of a
/// minimax search: the same score and the same move come out, and no more
/// states are visited than without pruning.
pub proof fn lemma_pruning_keeps_result<G: GameState>(
    state: G,
    plain_config: SearchConfig,
    pruned_config: SearchConfig,
    plain: SearchResult<G::Move>,
    pruned: SearchResult<G::Move>,
)
    requires
        !plain_config.use_alpha_beta,
        pruned_config.use_alpha_beta,
        pruned_config.alpha == i32::MIN,
        pruned_config.beta == i32::MAX,
        pruned_config.depth == plain_config.depth,
        search_result_post(state, plain_config, plain, true),
        search_result_post(state, pruned_config, pruned, true),
    ensures
        pruned.score == plain.score,
        pruned.best_move == plain.best_move,
        pruned.nodes_visited <= plain.nodes_visited,
{
}

/// Principal variation search finds what minimax finds: searched to the same
/// depth, each without pruning or on the full window, both return the
/// minimax value and the first legal move reaching it.
pub proof fn lemma_pvs_matches_minimax<G: GameState>(
    state: G,
    minimax_config: SearchConfig,
    pvs_config: SearchConfig,
    by_minimax: SearchResult<G::Move>,
    by_pvs: SearchResult<G::Move>,
)
    requires
        exact_window(minimax_config.alpha, minimax_config.beta, minimax_config.use_alpha_beta),
        exact_window(pvs_config.alpha, pvs_config.beta, pvs_config.use_alpha_beta),
        pvs_config.depth == minimax_config.depth,
        search_result_post(state, minimax_config, by_minimax, true),
        by_pvs.depth_reached == pvs_config.depth,
        pvs_post(
            state,
            pvs_config.depth as nat,
            pvs_config.alpha,
            pvs_config.beta,
            pvs_config.use_alpha_beta,
            (by_pvs.best_move, by_pvs.score, by_pvs.nodes_visited),
        ),
    ensures
        by_pvs.score == by_minimax.score,
        by_pvs.best_move == by_minimax.best_move,
        by_pvs.depth_reached == by_minimax.depth_reached,
{
}

/// Iterative deepening without a time budget agrees with minimax searched to
/// the same depth: the same score, a move exactly when minimax has one, and
/// that move is as good as the one minimax picks.
pub proof fn lemma_iterative_matches_minimax<G: GameState>(
    state: G,
    base_config: SearchConfig,
    minimax_config: SearchConfig,
    by_iteration: SearchResult<G::Move>,
    by_minimax: SearchResult<G::Move>,
)
    requires
        base_config.time_ms is None,
        exact_window(base_config.alpha, base_config.beta, base_config.use_alpha_beta),
        exact_window(minimax_config.alpha, minimax_config.beta, minimax_config.use_alpha_beta),
        minimax_config.depth == base_config.depth,
        iterative_post(state, base_config, by_iteration),
        search_result_post(state, minimax_config, by_minimax, true),
    ensures
        by_iteration.score == by_minimax.score,
        by_iteration.depth_reached == by_minimax.depth_reached,
        by_iteration.best_move is Some <==> by_minimax.best_move is Some,
        by_iteration.best_move matches Some(m) ==> by_minimax.best_move matches Some(n)
            && minimax_value(child(state, m), (base_config.depth - 1) as nat) == minimax_value(
            child(state, n),
            (base_config.depth - 1) as nat,
        ),
{
    if by_minimax.best_move is Some {
        assert(best_move_spec(state, base_config.depth as nat) is Some);
    }
}

/// A search to depth 0, or of a finished game, looks at nothing but the
/// state itself: it visits one state, proposes no move, and returns the
/// evaluation, or the outcome's score for a finished game, whatever the
/// window.
pub proof fn lemma_leaf_search<G: GameState>(state: G, config: SearchConfig, r: SearchResult<G::Move>)
    requires
        config.depth == 0 || state.outcome_spec() is Some,
        search_result_post(state, config, r, true),
    ensures
        r.best_move is None,
        r.nodes_visited == 1,
        r.score == (match state.outcome_spec() {
            Some(o) => outcome_score(o),
            None => state.evaluate_spec() as int,
        }),
{
}

/// A hinted move that is legal and reaches the minimax value is the move a
/// search that tries it first picks, even where an equally good move comes
/// before it among the legal moves (unless the value is no better than the
/// initial score, when no move is picked at all).
pub proof fn lemma_hinted_optimal_move_kept<G: GameState>(state: G, depth: nat, hint: G::Move)
    requires
        state.outcome_spec() is None,
        depth >= 1,
        state.legal_moves_spec().contains(hint),
        minimax_value(child(state, hint), (depth - 1) as nat) == minimax_value(state, depth),
        minimax_value(state, depth) != init_score(state.player_spec()),
    ensures
        best_move_hinted(state, depth, Some(hint)) == Some(hint),
{
    let legal = state.legal_moves_spec();
    lemma_position_upto(legal, hint, legal.len() as int);
    let p = position_upto(legal, hint, legal.len() as int)->0;
    let order = hinted_order(legal, Some(hint));
    assert(order[0] == hint);
    lemma_first_reaching_head(state, order, (depth - 1) as nat, minimax_value(state, depth));
}

/// A search that tries cached moves first finds what minimax finds,
/// searched to the same depth, each without pruning or on the full window:
/// the same score, a move exactly when minimax has one, and that move is as
/// good as the one minimax picks.
pub proof fn lemma_cached_search_matches_minimax<G: GameState>(
    state: G,
    cached_config: SearchConfig,
    minimax_config: SearchConfig,
    by_cache: SearchResult<G::Move>,
    by_minimax: SearchResult<G::Move>,
)
    requires
        exact_window(cached_config.alpha, cached_config.beta, cached_config.use_alpha_beta),
        exact_window(minimax_config.alpha, minimax_config.beta, minimax_config.use_alpha_beta),
        cached_config.depth == minimax_config.depth,
        search_result_post(state, cached_config, by_cache, false),
        search_result_post(state, minimax_config, by_minimax, true),
    ensures
        by_cache.score == by_minimax.score,
        by_cache.best_move is Some <==> by_minimax.best_move is Some,
        by_cache.best_move matches Some(m) ==> by_minimax.best_move matches Some(n)
            && minimax_value(child(state, m), (cached_config.depth - 1) as nat) == minimax_value(
            child(state, n),
            (cached_config.depth - 1) as nat,
        ),
{
    if by_minimax.best_move is Some {
        assert(best_move_spec(state, cached_config.depth as nat) is Some);
    }
}

/// Iterative deepening under a time budget goes on to the next depth
/// whenever its check of the clock finds time left: if every check finds
/// time left, the maximum depth is reached, and the search stops short of it
/// only after a check that finds the budget spent or the last depth longer
/// than the time left.
pub proof fn lemma_deepening_until_out_of_time(ms: u64, max_depth: nat, checks: Seq<(u128, u128)>, reached: nat)
    requires
        deepening_trace(Some(ms), max_depth, checks, reached),
    ensures
        (forall|i: int|
            0 <= i < checks.len() ==> time_left(ms as int * 1_000_000, #[trigger] checks[i].0 as int, checks[i].1 as int))
            ==> reached == max_depth,
        reached < max_depth ==> exists|i: int|
            0 <= i < checks.len() && !time_left(ms as int * 1_000_000, #[trigger] checks[i].0 as int, checks[i].1 as int),
{
    if reached < max_depth {
        assert(!time_left(ms as int * 1_000_000, checks[reached - 1].0 as int, checks[reached - 1].1 as int));
    }
}

} // verus!