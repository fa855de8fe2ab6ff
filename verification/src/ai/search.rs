//! Minimax search with optional alpha-beta pruning.
use vstd::prelude::*;
use std::collections::HashMap;
use std::hash::Hash;
use vstd::std_specs::hash::obeys_key_model;
use vstd::laws_eq::obeys_concrete_eq;
use crate::ai::clock::{clock_now, nanos_since};
use crate::ai::game_state::GameState;
use crate::ai::outcome::Outcome;
use crate::ai::player::MinMaxPlayer;
use crate::ai::value::{
    lemma_saturate_add,
    outcome_score,
    best_move_hinted, best_move_spec, best_over, child, first_reaching, hinted_order, position_upto, init_score, is_reordering, minimax_value,
    saturate, sizes_over, swapped, tree_size, lemma_best_over_step, lemma_first_reaching_extend,
    lemma_first_reaching_beyond, lemma_first_reaching_found, lemma_best_over_prefix,
    lemma_best_over_reached, lemma_sizes_over_prefix, lemma_value_in_range, lemma_reordering,
    lemma_best_over_in_range, leaves_inside, lemma_all_leaves_inside, well_played,
    lemma_all_well_played, lemma_well_played_shallower, WIN_SCORE, LOSS_SCORE,
};

verus! {

/// Whether a search with this window and pruning setting returns the exact
/// minimax value: always without pruning, and with pruning on the full window.
pub open spec fn exact_window(alpha: i32, beta: i32, prune: bool) -> bool {
    !prune || (alpha == i32::MIN && beta == i32::MAX)
}

/// What alpha-beta promises of a returned `score` for a state of minimax value
/// `value` searched in the window `(alpha, beta)`: a score at or below `alpha`
/// only shows the value is at most `alpha`, a score at or above `beta` is a
/// lower bound of the value, and a score strictly inside the window is the value.
/// In an empty window only the lower-bound part holds.
pub open spec fn alpha_beta_bound(score: int, value: int, alpha: int, beta: int) -> bool {
    &&& alpha < beta ==> {
        &&& score <= alpha ==> value <= alpha
        &&& score >= beta ==> value >= score
        &&& alpha < score < beta ==> value == score
    }
    &&& alpha == beta ==> (score >= alpha ==> value >= score)
}

/// A source of move hints: a move to try first in a given state.
pub trait MoveOrdering<G: GameState> {
    /// Whether this source never gives a hint.
    spec fn gives_no_hints(&self) -> bool;

    /// The hint for `state`, where `hints_known` holds.
    spec fn hint_spec(&self, state: G) -> Option<G::Move>;

    /// Whether the hints given are those of `hint_spec`.
    spec fn hints_known(&self) -> bool;

    /// The move to try first in `state`, if any.
    fn hint(&self, state: &G) -> (h: Option<&G::Move>)
        ensures
            self.gives_no_hints() ==> h is None,
            self.hints_known() ==> match h {
                Some(m) => self.hint_spec(*state) == Some(*m),
                None => self.hint_spec(*state) is None,
            },
    ;
}

/// The move `cache` holds for `state`, if any.
pub open spec fn cached_hint<G: GameState>(cache: Map<G, G::Move>, state: G) -> Option<G::Move> {
    if cache.contains_key(state) {
        Some(cache[state])
    } else {
        None
    }
}

/// Searching without hints: moves are tried in the order the game lists them.
pub struct NoHints;

impl<G: GameState> MoveOrdering<G> for NoHints {
    open spec fn gives_no_hints(&self) -> bool {
        true
    }

    open spec fn hint_spec(&self, state: G) -> Option<G::Move> {
        None
    }

    open spec fn hints_known(&self) -> bool {
        true
    }

    fn hint(&self, state: &G) -> (h: Option<&G::Move>) {
        None
    }
}

impl<G: GameState + Eq + Hash> MoveOrdering<G> for HashMap<G, G::Move> {
    open spec fn gives_no_hints(&self) -> bool {
        false
    }

    open spec fn hint_spec(&self, state: G) -> Option<G::Move> {
        cached_hint(self@, state)
    }

    /// The map gives the move it holds for a state when the keys' `==` and
    /// hash agree with their equality in specifications.
    open spec fn hints_known(&self) -> bool {
        obeys_key_model::<G>()
    }

    /// The move the map holds for `state`, if any.
    fn hint(&self, state: &G) -> (h: Option<&G::Move>) {
        proof {
            broadcast use vstd::std_specs::hash::group_hash_axioms;
        }
        self.get(state)
    }
}

/// The legal moves of `state`, with the hinted move, if it is among them,
/// exchanged with the first one.
fn ordered_moves<G: GameState, O: MoveOrdering<G>>(state: &G, hints: &O) -> (moves: Vec<G::Move>)
    ensures
        is_reordering(state.legal_moves_spec(), moves@),
        hints.gives_no_hints() ==> moves@ == state.legal_moves_spec(),
        hints.hints_known() && obeys_concrete_eq::<G::Move>() ==> moves@ == hinted_order(
            state.legal_moves_spec(),
            hints.hint_spec(*state),
        ),
{
    let mut moves = state.legal_moves();
    let ghost legal = moves@;
    proof {
        reveal(obeys_concrete_eq);
    }
    match hints.hint(state) {
        None => {},
        Some(h) => {
            let n = moves.len();
            let mut j: usize = 0;
            let mut pos: Option<usize> = None;
            while j < n
                invariant
                    n == moves.len(),
                    moves@ == legal,
                    j <= n,
                    pos matches Some(p) ==> p < n,
                    obeys_concrete_eq::<G::Move>() ==> match pos {
                        Some(p) => position_upto(legal, *h, j as int) == Some(p as int),
                        None => position_upto(legal, *h, j as int) is None,
                    },
                decreases n - j,
            {
                proof {
                    reveal(obeys_concrete_eq);
                }
                if pos.is_none() {
                    let same = moves[j] == *h;
                    if same {
                        pos = Some(j);
                    }
                }
                j += 1;
            }
            if let Some(p) = pos {
                if p > 0 {
                    let x = moves.remove(p);
                    let y = moves.remove(0);
                    moves.insert(0, x);
                    moves.insert(p, y);
                    assert(moves@ =~= swapped(legal, p as int));
                } else {
                    assert(legal =~= swapped(legal, 0));
                }
            }
        },
    }
    moves
}

/// What a search node returns after trying `ms` from `s`, each child searched
/// `d` plies deep.
pub open spec fn node_post<G: GameState>(
    s: G,
    ms: Seq<G::Move>,
    d: nat,
    alpha: i32,
    beta: i32,
    prune: bool,
    r: (Option<G::Move>, i32, u64),
) -> bool {
    let v = best_over(s, ms, d);
    let size = 1 + sizes_over(s, ms, d);
    &&& 1 <= r.2 <= size
    &&& ms.len() > 0 ==> 2 <= r.2
    &&& !prune ==> r.2 == saturate(size)
    &&& exact_window(alpha, beta, prune) ==> {
        &&& r.1 == v
        &&& r.0 == (if v == init_score(s.player_spec()) {
            None
        } else {
            first_reaching(s, ms, d, v)
        })
    }
    &&& r.0 matches Some(m) ==> ms.contains(m)
    &&& prune ==> alpha_beta_bound(r.1 as int, v, alpha as int, beta as int)
}

/// What a search of `s`, `depth` plies deep in the window `(alpha, beta)`,
/// returns: its best move, its score and the number of states it visited.
pub open spec fn search_post<G: GameState>(
    s: G,
    depth: nat,
    alpha: i32,
    beta: i32,
    prune: bool,
    in_order: bool,
    r: (Option<G::Move>, i32, u64),
) -> bool {
    let v = minimax_value(s, depth);
    let size = tree_size(s, depth);
    &&& 1 <= r.2 <= size
    &&& !prune ==> r.2 == saturate(size)
    &&& (depth == 0 || s.outcome_spec() is Some) ==> r.0 is None && r.1 == v
    &&& (depth >= 1 && s.outcome_spec() is None && s.legal_moves_spec().len() > 0) ==> 2 <= r.2
    &&& exact_window(alpha, beta, prune) ==> {
        &&& r.1 == v
        &&& (r.0 is None <==> best_move_spec(s, depth) is None)
        &&& (r.0 matches Some(m) ==> minimax_value(child(s, m), (depth - 1) as nat) == v)
        &&& in_order ==> r.0 == best_move_spec(s, depth)
    }
    &&& r.0 matches Some(m) ==> s.legal_moves_spec().contains(m)
    &&& prune ==> alpha_beta_bound(r.1 as int, v, alpha as int, beta as int)
}

/// What alpha-beta computes for `s`, `depth` plies deep in the window
/// `(alpha, beta)`, pruning when `prune` is set and trying the moves in the
/// order the game lists them: the move it picks, its score and the number of
/// states it visits.
pub open spec fn ab_result<G: GameState>(s: G, depth: nat, alpha: i32, beta: i32, prune: bool) -> (
    Option<G::Move>,
    i32,
    nat,
)
    decreases depth, 1nat, 0int,
{
    match s.outcome_spec() {
        Some(o) => (None, outcome_score(o) as i32, 1),
        None => if depth == 0 || s.legal_moves_spec().len() == 0 {
            (None, s.evaluate_spec(), 1)
        } else {
            ab_scan(
                s,
                s.legal_moves_spec(),
                (depth - 1) as nat,
                alpha,
                beta,
                prune,
                0,
                None,
                init_score(s.player_spec()) as i32,
                match s.player_spec() {
                    MinMaxPlayer::Max => alpha,
                    MinMaxPlayer::Min => beta,
                },
                1,
            )
        },
    }
}

/// Alpha-beta at a node `s`, from move `i` of `ms` on, each child searched
/// `d` plies deep, with the best move and score so far, the current bound
/// (alpha for `Max`, beta for `Min`) and the states visited so far. `Max`
/// stops once its bound reaches `beta`, `Min` once its bound drops below
/// `alpha`.
pub open spec fn ab_scan<G: GameState>(
    s: G,
    ms: Seq<G::Move>,
    d: nat,
    alpha: i32,
    beta: i32,
    prune: bool,
    i: int,
    best_move: Option<G::Move>,
    best: i32,
    bound: i32,
    nodes: nat,
) -> (Option<G::Move>, i32, nat)
    decreases d + 1, 0nat, ms.len() - i,
{
    if i < 0 || i >= ms.len() {
        (best_move, best, nodes)
    } else {
        let m = ms[i];
        match s.player_spec() {
            MinMaxPlayer::Max => {
                let c = ab_result(child(s, m), d, bound, beta, prune);
                let (bm, bs) = if c.1 > best {
                    (Some(m), c.1)
                } else {
                    (best_move, best)
                };
                let nb = if bound >= c.1 {
                    bound
                } else {
                    c.1
                };
                if prune && nb >= beta {
                    (bm, bs, nodes + c.2)
                } else {
                    ab_scan(s, ms, d, alpha, beta, prune, i + 1, bm, bs, nb, nodes + c.2)
                }
            },
            MinMaxPlayer::Min => {
                let c = ab_result(child(s, m), d, alpha, bound, prune);
                let (bm, bs) = if c.1 < best {
                    (Some(m), c.1)
                } else {
                    (best_move, best)
                };
                let nb = if bound <= c.1 {
                    bound
                } else {
                    c.1
                };
                if prune && nb < alpha {
                    (bm, bs, nodes + c.2)
                } else {
                    ab_scan(s, ms, d, alpha, beta, prune, i + 1, bm, bs, nb, nodes + c.2)
                }
            },
        }
    }
}

/// Minimax search of `state`, `depth` plies deep, with alpha-beta pruning
/// when `prune` is set, trying hinted moves first.
fn ab_search<G: GameState, O: MoveOrdering<G>>(
    state: &G,
    depth: u32,
    alpha: i32,
    beta: i32,
    prune: bool,
    hints: &O,
) -> (r: (Option<G::Move>, i32, u64))
    requires
        well_played(*state, depth as nat),
    ensures
        search_post(*state, depth as nat, alpha, beta, prune, hints.gives_no_hints(), r),
        hints.hints_known() && obeys_concrete_eq::<G::Move>() && exact_window(alpha, beta, prune)
            ==> r.0 == best_move_hinted(*state, depth as nat, hints.hint_spec(*state)),
        hints.gives_no_hints() ==> {
            let e = ab_result(*state, depth as nat, alpha, beta, prune);
            r.0 == e.0 && r.1 == e.1 && r.2 == saturate(e.2)
        },
    decreases depth, 1nat,
{
    if let Some(outcome) = state.outcome() {
        let score = match outcome {
            Outcome::Win(MinMaxPlayer::Max) => WIN_SCORE,
            Outcome::Win(MinMaxPlayer::Min) => LOSS_SCORE,
            Outcome::Draw => 0,
        };
        return (None, score, 1);
    }
    if depth == 0 {
        return (None, state.evaluate(), 1);
    }
    let moves = ordered_moves(state, hints);
    if moves.len() == 0 {
        // A game that is not over should have a legal move; where one has
        // none, its heuristic value stands in for it.
        return (None, state.evaluate(), 1);
    }
    let ghost ms = moves@;
    let ghost legal = state.legal_moves_spec();
    let ghost d = (depth - 1) as nat;
    proof {
        lemma_reordering(*state, legal, ms, d);
        lemma_all_well_played(*state, legal, d);
        assert forall|i: int| 0 <= i < ms.len() implies (#[trigger] state.with_move_spec(ms[i])) is Ok
            && well_played(child(*state, ms[i]), d) by {
            assert(ms.contains(ms[i]));
            let k = choose|k: int| 0 <= k < legal.len() && legal[k] == ms[i];
            assert(state.with_move_spec(legal[k]) is Ok);
        }
    }
    let r = match state.current_player() {
        MinMaxPlayer::Max => ab_max(state, moves, depth, alpha, beta, prune, hints),
        MinMaxPlayer::Min => ab_min(state, moves, depth, alpha, beta, prune, hints),
    };
    proof {
        let v = best_over(*state, ms, d);
        if exact_window(alpha, beta, prune) && v != init_score(state.player_spec()) {
            lemma_best_over_reached(*state, ms, d);
            lemma_first_reaching_found(*state, ms, d, v);
            lemma_best_over_reached(*state, legal, d);
        }
    }
    r
}

/// A node where `Max` moves: the children reached by `moves`, in order, each
/// searched one ply shallower.
fn ab_max<G: GameState, O: MoveOrdering<G>>(
    state: &G,
    moves: Vec<G::Move>,
    depth: u32,
    alpha: i32,
    beta: i32,
    prune: bool,
    hints: &O,
) -> (r: (Option<G::Move>, i32, u64))
    requires
        depth >= 1,
        moves@.len() > 0,
        state.player_spec() == MinMaxPlayer::Max,
        forall|i: int| 0 <= i < moves@.len() ==> (#[trigger] state.with_move_spec(moves@[i])) is Ok,
        forall|i: int|
            0 <= i < moves@.len() ==> well_played(#[trigger] child(*state, moves@[i]), (depth - 1) as nat),
    ensures
        node_post(*state, moves@, (depth - 1) as nat, alpha, beta, prune, r),
        hints.gives_no_hints() ==> {
            let e = ab_scan(*state, moves@, (depth - 1) as nat, alpha, beta, prune, 0, None, i32::MIN, alpha, 1);
            r.0 == e.0 && r.1 == e.1 && r.2 == saturate(e.2)
        },
    decreases depth, 0nat,
{
    let ghost ms = moves@;
    let ghost d = (depth - 1) as nat;
    let mut moves = moves;
    let mut best_move: Option<G::Move> = None;
    let mut best_score: i32 = i32::MIN;
    let mut current_alpha: i32 = alpha;
    let mut nodes: u64 = 1;
    let ghost mut i: int = 0;
    let ghost mut sn: nat = 1;
    let ghost e = ab_scan(*state, ms, d, alpha, beta, prune, 0, None, i32::MIN, alpha, 1);
    assert(ms.take(0) =~= Seq::<G::Move>::empty());
    while moves.len() > 0
        invariant_except_break
            hints.gives_no_hints() ==> e == ab_scan(*state, ms, d, alpha, beta, prune, i, best_move, best_score, current_alpha, sn),
            prune && i > 0 ==> current_alpha < beta,
        invariant
            0 <= i <= ms.len(),
            ms.len() > 0,
            moves@ == ms.skip(i),
            depth >= 1,
            d == depth - 1,
            state.player_spec() == MinMaxPlayer::Max,
            forall|k: int| 0 <= k < ms.len() ==> (#[trigger] state.with_move_spec(ms[k])) is Ok,
            forall|k: int| 0 <= k < ms.len() ==> well_played(#[trigger] child(*state, ms[k]), d),
            1 <= nodes <= 1 + sizes_over(*state, ms.take(i), d),
            hints.gives_no_hints() ==> nodes == saturate(sn),
            i > 0 ==> 2 <= nodes,
            !prune ==> nodes == saturate(1 + sizes_over(*state, ms.take(i), d)),
            current_alpha == (if alpha >= best_score {
                alpha
            } else {
                best_score
            }),
            best_move matches Some(m) ==> ms.contains(m),
            exact_window(alpha, beta, prune) ==> {
                &&& best_score == best_over(*state, ms.take(i), d)
                &&& best_score != i32::MIN ==> best_move is Some
                &&& best_move == (if best_score == i32::MIN {
                    None
                } else {
                    first_reaching(*state, ms.take(i), d, best_score as int)
                })
            },
            prune && alpha < beta && current_alpha < beta ==> best_over(*state, ms.take(i), d)
                <= current_alpha,
            prune && alpha < beta && best_score > alpha ==> best_over(*state, ms.take(i), d)
                >= best_score,
            prune && alpha == beta && best_score >= alpha ==> best_over(*state, ms.take(i), d)
                >= best_score,
        ensures
            i > 0,
            hints.gives_no_hints() ==> e == (best_move, best_score, sn),
            i == ms.len() || (prune && current_alpha >= beta),
        decreases moves.len(),
    {
        let mv = moves.remove(0);
        assert(mv == ms[i]);
        let child_state = state.with_move(&mv).unwrap();
        assert(child_state == child(*state, ms[i]));
        let (_, score, child_nodes) = ab_search(
            &child_state,
            depth - 1,
            current_alpha,
            beta,
            prune,
            hints,
        );
        proof {
            lemma_best_over_step(*state, ms, d, i);
            lemma_value_in_range(child_state, d);
            let v = minimax_value(child_state, d);
            let vi = best_over(*state, ms.take(i), d);
            if exact_window(alpha, beta, prune) {
                if score > best_score {
                    lemma_first_reaching_beyond(*state, ms.take(i), d, v);
                } else if best_score != i32::MIN {
                    assert(ms.take(i + 1).take(i) =~= ms.take(i));
                    lemma_first_reaching_extend(
                        *state,
                        ms.take(i + 1),
                        d,
                        best_score as int,
                        i,
                    );
                }
            }
        }
        let ghost c = ab_result(child(*state, ms[i]), d, current_alpha, beta, prune);
        let ghost pre = (best_move, best_score, current_alpha, sn);
        proof {
            lemma_saturate_add(sn, c.2);
            sn = sn + c.2;
        }
        nodes = nodes.saturating_add(child_nodes);
        if score > best_score {
            best_score = score;
            best_move = Some(mv);
        }
        current_alpha = if current_alpha >= score {
            current_alpha
        } else {
            score
        };
        proof {
            if hints.gives_no_hints() {
                assert(ab_scan(*state, ms, d, alpha, beta, prune, i, pre.0, pre.1, pre.2, pre.3) == (if prune && current_alpha >= beta {
                    (best_move, best_score, sn)
                } else {
                    ab_scan(*state, ms, d, alpha, beta, prune, i + 1, best_move, best_score, current_alpha, sn)
                }));
            }
            i = i + 1;
            assert(moves@ =~= ms.skip(i));
        }
        if prune && current_alpha >= beta {
            break ;
        }
    }
    proof {
        lemma_best_over_prefix(*state, ms, d, i);
        lemma_sizes_over_prefix(*state, ms, d, i);
        lemma_best_over_in_range(*state, ms, d);
        if i == ms.len() {
            assert(ms.take(i) =~= ms);
        } else if exact_window(alpha, beta, prune) && best_score != i32::MIN {
            lemma_first_reaching_extend(*state, ms, d, best_score as int, i);
        }
    }
    (best_move, best_score, nodes)
}

/// A node where `Min` moves: the children reached by `moves`, in order, each
/// searched one ply shallower.
fn ab_min<G: GameState, O: MoveOrdering<G>>(
    state: &G,
    moves: Vec<G::Move>,
    depth: u32,
    alpha: i32,
    beta: i32,
    prune: bool,
    hints: &O,
) -> (r: (Option<G::Move>, i32, u64))
    requires
        depth >= 1,
        moves@.len() > 0,
        state.player_spec() == MinMaxPlayer::Min,
        forall|i: int| 0 <= i < moves@.len() ==> (#[trigger] state.with_move_spec(moves@[i])) is Ok,
        forall|i: int|
            0 <= i < moves@.len() ==> well_played(#[trigger] child(*state, moves@[i]), (depth - 1) as nat),
    ensures
        node_post(*state, moves@, (depth - 1) as nat, alpha, beta, prune, r),
        hints.gives_no_hints() ==> {
            let e = ab_scan(*state, moves@, (depth - 1) as nat, alpha, beta, prune, 0, None, i32::MAX, beta, 1);
            r.0 == e.0 && r.1 == e.1 && r.2 == saturate(e.2)
        },
    decreases depth, 0nat,
{
    let ghost ms = moves@;
    let ghost d = (depth - 1) as nat;
    let mut moves = moves;
    let mut best_move: Option<G::Move> = None;
    let mut best_score: i32 = i32::MAX;
    let mut current_beta: i32 = beta;
    let mut nodes: u64 = 1;
    let ghost mut i: int = 0;
    let ghost mut sn: nat = 1;
    let ghost e = ab_scan(*state, ms, d, alpha, beta, prune, 0, None, i32::MAX, beta, 1);
    assert(ms.take(0) =~= Seq::<G::Move>::empty());
    while moves.len() > 0
        invariant_except_break
            hints.gives_no_hints() ==> e == ab_scan(*state, ms, d, alpha, beta, prune, i, best_move, best_score, current_beta, sn),
            prune && alpha <= beta ==> current_beta >= alpha,
        invariant
            0 <= i <= ms.len(),
            ms.len() > 0,
            moves@ == ms.skip(i),
            depth >= 1,
            d == depth - 1,
            state.player_spec() == MinMaxPlayer::Min,
            forall|k: int| 0 <= k < ms.len() ==> (#[trigger] state.with_move_spec(ms[k])) is Ok,
            forall|k: int| 0 <= k < ms.len() ==> well_played(#[trigger] child(*state, ms[k]), d),
            1 <= nodes <= 1 + sizes_over(*state, ms.take(i), d),
            hints.gives_no_hints() ==> nodes == saturate(sn),
            i > 0 ==> 2 <= nodes,
            !prune ==> nodes == saturate(1 + sizes_over(*state, ms.take(i), d)),
            current_beta == (if beta <= best_score {
                beta
            } else {
                best_score
            }),
            best_move matches Some(m) ==> ms.contains(m),
            exact_window(alpha, beta, prune) ==> {
                &&& best_score == best_over(*state, ms.take(i), d)
                &&& best_score != i32::MAX ==> best_move is Some
                &&& best_move == (if best_score == i32::MAX {
                    None
                } else {
                    first_reaching(*state, ms.take(i), d, best_score as int)
                })
            },
            prune && alpha < beta && best_score <= alpha ==> best_over(*state, ms.take(i), d)
                <= alpha,
            prune && alpha < beta && best_score > alpha ==> best_over(*state, ms.take(i), d)
                >= best_score,
            prune && alpha < beta && alpha < best_score < beta ==> best_over(
                *state,
                ms.take(i),
                d,
            ) <= best_score,
            prune && alpha == beta && best_score >= alpha ==> best_over(*state, ms.take(i), d)
                >= best_score,
        ensures
            i > 0,
            hints.gives_no_hints() ==> e == (best_move, best_score, sn),
            i == ms.len() || (prune && current_beta < alpha),
        decreases moves.len(),
    {
        let mv = moves.remove(0);
        assert(mv == ms[i]);
        let child_state = state.with_move(&mv).unwrap();
        assert(child_state == child(*state, ms[i]));
        let (_, score, child_nodes) = ab_search(
            &child_state,
            depth - 1,
            alpha,
            current_beta,
            prune,
            hints,
        );
        proof {
            lemma_best_over_step(*state, ms, d, i);
            lemma_value_in_range(child_state, d);
            let v = minimax_value(child_state, d);
            if exact_window(alpha, beta, prune) {
                if score < best_score {
                    lemma_first_reaching_beyond(*state, ms.take(i), d, v);
                } else if best_score != i32::MAX {
                    assert(ms.take(i + 1).take(i) =~= ms.take(i));
                    lemma_first_reaching_extend(
                        *state,
                        ms.take(i + 1),
                        d,
                        best_score as int,
                        i,
                    );
                }
            }
        }
        let ghost c = ab_result(child(*state, ms[i]), d, alpha, current_beta, prune);
        let ghost pre = (best_move, best_score, current_beta, sn);
        proof {
            lemma_saturate_add(sn, c.2);
            sn = sn + c.2;
        }
        nodes = nodes.saturating_add(child_nodes);
        if score < best_score {
            best_score = score;
            best_move = Some(mv);
        }
        current_beta = if current_beta <= score {
            current_beta
        } else {
            score
        };
        proof {
            if hints.gives_no_hints() {
                assert(ab_scan(*state, ms, d, alpha, beta, prune, i, pre.0, pre.1, pre.2, pre.3) == (if prune && current_beta < alpha {
                    (best_move, best_score, sn)
                } else {
                    ab_scan(*state, ms, d, alpha, beta, prune, i + 1, best_move, best_score, current_beta, sn)
                }));
            }
            i = i + 1;
            assert(moves@ =~= ms.skip(i));
        }
        if prune && current_beta < alpha {
            break ;
        }
    }
    proof {
        lemma_best_over_prefix(*state, ms, d, i);
        lemma_sizes_over_prefix(*state, ms, d, i);
        lemma_best_over_in_range(*state, ms, d);
        if i == ms.len() {
            assert(ms.take(i) =~= ms);
        }
    }
    (best_move, best_score, nodes)
}

/// Result of a minimax search from a given game state.
pub struct SearchResult<M> {
    /// The best move found for the side to move at the root; `None` if the
    /// position is terminal or the search depth is 0.
    pub best_move: Option<M>,
    /// Evaluation score of the root position from the maximizing player's perspective.
    pub score: i32,
    /// Total number of game states visited during the search.
    pub nodes_visited: u64,
    /// Time spent in this search call, in milliseconds.
    pub millis_spent: u128,
    /// The search depth used for this result.
    pub depth_reached: u32,
}

/// Configuration parameters for a minimax search.
#[derive(Debug, Clone)]
pub struct SearchConfig {
    /// Maximum search depth from the root position; 0 only evaluates the root.
    pub depth: u32,
    /// Initial alpha bound, used when pruning.
    pub alpha: i32,
    /// Initial beta bound, used when pruning.
    pub beta: i32,
    /// Whether to use alpha-beta pruning.
    pub use_alpha_beta: bool,
    /// Time budget in milliseconds for iterative deepening.
    pub time_ms: Option<u64>,
}

impl SearchConfig {
    /// A plain minimax search `depth` plies deep, with the full window.
    pub fn new(depth: u32) -> (c: Self)
        ensures
            c.depth == depth,
            c.alpha == i32::MIN,
            c.beta == i32::MAX,
            !c.use_alpha_beta,
            c.time_ms is None,
    {
        SearchConfig { depth, alpha: i32::MIN, beta: i32::MAX, use_alpha_beta: false, time_ms: None }
    }

    /// An alpha-beta search `depth` plies deep, with the full window.
    pub fn new_alpha_beta(depth: u32) -> (c: Self)
        ensures
            c.depth == depth,
            c.alpha == i32::MIN,
            c.beta == i32::MAX,
            c.use_alpha_beta,
            c.time_ms is None,
    {
        SearchConfig { depth, alpha: i32::MIN, beta: i32::MAX, use_alpha_beta: true, time_ms: None }
    }

    /// This configuration with the given pruning setting and window.
    pub fn with_alpha_beta(self, use_alpha_beta: bool, alpha: i32, beta: i32) -> (c: Self)
        ensures
            c.depth == self.depth,
            c.alpha == alpha,
            c.beta == beta,
            c.use_alpha_beta == use_alpha_beta,
            c.time_ms == self.time_ms,
    {
        let mut c = self;
        c.alpha = alpha;
        c.beta = beta;
        c.use_alpha_beta = use_alpha_beta;
        c
    }

    /// This configuration with the given time budget.
    pub fn with_time_ms(self, time_ms: Option<u64>) -> (c: Self)
        ensures
            c.depth == self.depth,
            c.alpha == self.alpha,
            c.beta == self.beta,
            c.use_alpha_beta == self.use_alpha_beta,
            c.time_ms == time_ms,
    {
        let mut c = self;
        c.time_ms = time_ms;
        c
    }
}

/// What a search of `state` with `config` returns, apart from its time.
pub open spec fn search_result_post<G: GameState>(
    state: G,
    config: SearchConfig,
    r: SearchResult<G::Move>,
    in_order: bool,
) -> bool {
    &&& r.depth_reached == config.depth
    &&& search_post(
        state,
        config.depth as nat,
        config.alpha,
        config.beta,
        config.use_alpha_beta,
        in_order,
        (r.best_move, r.score, r.nodes_visited),
    )
}

/// Searches the game tree of `state` with minimax, `config.depth` plies deep,
/// with alpha-beta pruning when `config.use_alpha_beta` is set.
///
/// Without pruning, or with pruning on the full window, the score is the
/// minimax value and the move is the first legal move reaching it; with
/// pruning the score bounds the value as alpha-beta promises, and no more
/// states are visited than the tree holds. In every window the move, score
/// and count of visited states are those of `ab_result`.
pub fn minimax<G: GameState>(state: &G, config: &SearchConfig) -> (r: SearchResult<G::Move>)
    requires
        well_played(*state, config.depth as nat),
    ensures
        search_result_post(*state, *config, r, true),
        ({
            let e = ab_result(*state, config.depth as nat, config.alpha, config.beta, config.use_alpha_beta);
            r.best_move == e.0 && r.score == e.1 && r.nodes_visited == saturate(e.2)
        }),
{
    let start = clock_now();
    let (best_move, score, nodes_visited) = ab_search(
        state,
        config.depth,
        config.alpha,
        config.beta,
        config.use_alpha_beta,
        &NoHints,
    );
    let millis_spent = nanos_since(&start) / 1_000_000;
    SearchResult { best_move, score, nodes_visited, millis_spent, depth_reached: config.depth }
}

/// What a fail-soft search promises of a returned `score` for a state of
/// minimax value `value` searched in the window `(alpha, beta)`: a score at or
/// below `alpha` is an upper bound of the value, a score at or above `beta` a
/// lower bound, and a score strictly inside the window is the value. In an
/// empty window only the lower-bound part holds.
pub open spec fn fail_soft_bound(score: int, value: int, alpha: int, beta: int) -> bool {
    &&& alpha < beta ==> {
        &&& score <= alpha ==> value <= score
        &&& score >= beta ==> value >= score
        &&& alpha < score < beta ==> value == score
    }
    &&& alpha == beta ==> (score >= alpha ==> value >= score)
}

/// What principal variation search computes for `s`, `depth` plies deep in
/// the window `(alpha, beta)`: the move it picks, its score and the number of
/// states it visits.
pub open spec fn pvs_result<G: GameState>(s: G, depth: nat, alpha: i32, beta: i32, prune: bool) -> (
    Option<G::Move>,
    i32,
    nat,
)
    decreases depth, 1nat, 0int,
{
    match s.outcome_spec() {
        Some(o) => (None, outcome_score(o) as i32, 1),
        None => if depth == 0 || s.legal_moves_spec().len() == 0 {
            (None, s.evaluate_spec(), 1)
        } else {
            pvs_scan(
                s,
                s.legal_moves_spec(),
                (depth - 1) as nat,
                alpha,
                beta,
                prune,
                0,
                None,
                init_score(s.player_spec()) as i32,
                match s.player_spec() {
                    MinMaxPlayer::Max => alpha,
                    MinMaxPlayer::Min => beta,
                },
                1,
            )
        },
    }
}

/// Principal variation search at a node `s`, from move `i` of `ms` on: the
/// first move is searched with the node's window, each later one first with
/// a null window next to the current bound and again with the node's window
/// when the null window shows it may be better. The states counted for a
/// child are those of the search whose score is kept.
pub open spec fn pvs_scan<G: GameState>(
    s: G,
    ms: Seq<G::Move>,
    d: nat,
    alpha: i32,
    beta: i32,
    prune: bool,
    i: int,
    best_move: Option<G::Move>,
    best: i32,
    bound: i32,
    nodes: nat,
) -> (Option<G::Move>, i32, nat)
    decreases d + 1, 0nat, ms.len() - i,
{
    if i < 0 || i >= ms.len() {
        (best_move, best, nodes)
    } else {
        let m = ms[i];
        match s.player_spec() {
            MinMaxPlayer::Max => {
                let c = if i == 0 {
                    pvs_result(child(s, m), d, bound, beta, prune)
                } else {
                    let t = pvs_result(child(s, m), d, bound, (bound + 1) as i32, prune);
                    if bound < t.1 && t.1 < beta {
                        pvs_result(child(s, m), d, bound, beta, prune)
                    } else {
                        t
                    }
                };
                let (bm, bs) = if c.1 > best {
                    (Some(m), c.1)
                } else {
                    (best_move, best)
                };
                let nb = if bound >= c.1 {
                    bound
                } else {
                    c.1
                };
                if prune && nb >= beta {
                    (bm, bs, nodes + c.2)
                } else {
                    pvs_scan(s, ms, d, alpha, beta, prune, i + 1, bm, bs, nb, nodes + c.2)
                }
            },
            MinMaxPlayer::Min => {
                let c = if i == 0 {
                    pvs_result(child(s, m), d, alpha, bound, prune)
                } else {
                    let t = pvs_result(child(s, m), d, (bound - 1) as i32, bound, prune);
                    if alpha < t.1 && t.1 < bound {
                        pvs_result(child(s, m), d, alpha, bound, prune)
                    } else {
                        t
                    }
                };
                let (bm, bs) = if c.1 < best {
                    (Some(m), c.1)
                } else {
                    (best_move, best)
                };
                let nb = if bound <= c.1 {
                    bound
                } else {
                    c.1
                };
                if prune && nb < alpha {
                    (bm, bs, nodes + c.2)
                } else {
                    pvs_scan(s, ms, d, alpha, beta, prune, i + 1, bm, bs, nb, nodes + c.2)
                }
            },
        }
    }
}

/// What a principal variation search node returns after trying `ms` from `s`.
pub open spec fn pvs_node_post<G: GameState>(
    s: G,
    ms: Seq<G::Move>,
    d: nat,
    alpha: i32,
    beta: i32,
    prune: bool,
    r: (Option<G::Move>, i32, u64),
) -> bool {
    let v = best_over(s, ms, d);
    let size = 1 + sizes_over(s, ms, d);
    &&& 1 <= r.2 <= size
    &&& ms.len() > 0 ==> 2 <= r.2
    &&& !prune ==> r.2 == saturate(size)
    &&& i32::MIN < r.1 < i32::MAX
    &&& exact_window(alpha, beta, prune) ==> {
        &&& r.1 == v
        &&& r.0 == (if v == init_score(s.player_spec()) {
            None
        } else {
            first_reaching(s, ms, d, v)
        })
    }
    &&& r.0 matches Some(m) ==> ms.contains(m)
    &&& prune ==> fail_soft_bound(r.1 as int, v, alpha as int, beta as int)
}

/// What a principal variation search of `s`, `depth` plies deep in the window
/// `(alpha, beta)`, returns.
pub open spec fn pvs_post<G: GameState>(
    s: G,
    depth: nat,
    alpha: i32,
    beta: i32,
    prune: bool,
    r: (Option<G::Move>, i32, u64),
) -> bool {
    let v = minimax_value(s, depth);
    let size = tree_size(s, depth);
    &&& 1 <= r.2 <= size
    &&& !prune ==> r.2 == saturate(size)
    &&& (depth == 0 || s.outcome_spec() is Some) ==> r.0 is None && r.1 == v
    &&& (depth >= 1 && s.outcome_spec() is None && s.legal_moves_spec().len() > 0) ==> 2 <= r.2
    &&& leaves_inside(s, depth) ==> i32::MIN < r.1 < i32::MAX
    &&& exact_window(alpha, beta, prune) ==> r.1 == v && r.0 == best_move_spec(s, depth)
    &&& r.0 matches Some(m) ==> s.legal_moves_spec().contains(m)
    &&& prune ==> fail_soft_bound(r.1 as int, v, alpha as int, beta as int)
}

/// Principal variation search of `state`, `depth` plies deep: the first move
/// of each node is searched with the full window, the others first with a
/// null window and again with the full window only when that one fails high.
fn pvs_search<G: GameState>(state: &G, depth: u32, alpha: i32, beta: i32, prune: bool) -> (r: (
    Option<G::Move>,
    i32,
    u64,
))
    requires
        well_played(*state, depth as nat),
        depth >= 1 && state.outcome_spec() is None ==> {
            &&& leaves_inside(*state, depth as nat)
            &&& alpha < i32::MAX
            &&& beta > i32::MIN
        },
    ensures
        pvs_post(*state, depth as nat, alpha, beta, prune, r),
        ({
            let e = pvs_result(*state, depth as nat, alpha, beta, prune);
            r.0 == e.0 && r.1 == e.1 && r.2 == saturate(e.2)
        }),
    decreases depth, 1nat,
{
    if let Some(outcome) = state.outcome() {
        let score = match outcome {
            Outcome::Win(MinMaxPlayer::Max) => WIN_SCORE,
            Outcome::Win(MinMaxPlayer::Min) => LOSS_SCORE,
            Outcome::Draw => 0,
        };
        return (None, score, 1);
    }
    if depth == 0 {
        return (None, state.evaluate(), 1);
    }
    let moves = state.legal_moves();
    if moves.len() == 0 {
        return (None, state.evaluate(), 1);
    }
    let ghost ms = moves@;
    let ghost d = (depth - 1) as nat;
    proof {
        lemma_all_leaves_inside(*state, ms, d);
        lemma_all_well_played(*state, ms, d);
    }
    let r = match state.current_player() {
        MinMaxPlayer::Max => pvs_max(state, moves, depth, alpha, beta, prune),
        MinMaxPlayer::Min => pvs_min(state, moves, depth, alpha, beta, prune),
    };
    proof {
        let v = best_over(*state, ms, d);
        if r.0 is Some && exact_window(alpha, beta, prune) && v != init_score(state.player_spec()) {
            lemma_best_over_reached(*state, ms, d);
        }
    }
    r
}

/// A principal variation search node where `Max` moves.
fn pvs_max<G: GameState>(
    state: &G,
    moves: Vec<G::Move>,
    depth: u32,
    alpha: i32,
    beta: i32,
    prune: bool,
) -> (r: (Option<G::Move>, i32, u64))
    requires
        depth >= 1,
        moves@.len() > 0,
        alpha < i32::MAX,
        beta > i32::MIN,
        state.player_spec() == MinMaxPlayer::Max,
        forall|i: int| 0 <= i < moves@.len() ==> (#[trigger] state.with_move_spec(moves@[i])) is Ok,
        forall|i: int|
            0 <= i < moves@.len() ==> well_played(#[trigger] child(*state, moves@[i]), (depth - 1) as nat),
        forall|i: int|
            0 <= i < moves@.len() ==> leaves_inside(#[trigger] child(*state, moves@[i]), (depth - 1) as nat),
    ensures
        pvs_node_post(*state, moves@, (depth - 1) as nat, alpha, beta, prune, r),
        ({
            let e = pvs_scan(*state, moves@, (depth - 1) as nat, alpha, beta, prune, 0, None, i32::MIN, alpha, 1);
            r.0 == e.0 && r.1 == e.1 && r.2 == saturate(e.2)
        }),
    decreases depth, 0nat,
{
    let ghost ms = moves@;
    let ghost d = (depth - 1) as nat;
    let mut moves = moves;
    let mut best_move: Option<G::Move> = None;
    let mut best_score: i32 = i32::MIN;
    let mut current_alpha: i32 = alpha;
    let mut nodes: u64 = 1;
    let mut idx: usize = 0;
    let move_count = moves.len();
    let ghost mut sn: nat = 1;
    let ghost e = pvs_scan(*state, ms, d, alpha, beta, prune, 0, None, i32::MIN, alpha, 1);
    assert(ms.take(0) =~= Seq::<G::Move>::empty());
    while moves.len() > 0
        invariant_except_break
            e == pvs_scan(*state, ms, d, alpha, beta, prune, idx as int, best_move, best_score, current_alpha, sn),
            prune && idx > 0 ==> current_alpha < beta,
        invariant
            0 <= idx <= ms.len(),
            moves@ == ms.skip(idx as int),
            depth >= 1,
            d == depth - 1,
            alpha < i32::MAX,
            beta > i32::MIN,
            state.player_spec() == MinMaxPlayer::Max,
            forall|k: int| 0 <= k < ms.len() ==> (#[trigger] state.with_move_spec(ms[k])) is Ok,
            forall|k: int| 0 <= k < ms.len() ==> well_played(#[trigger] child(*state, ms[k]), d),
            forall|k: int| 0 <= k < ms.len() ==> leaves_inside(#[trigger] child(*state, ms[k]), d),
            idx > 0 ==> i32::MIN < best_score < i32::MAX,
            idx == 0 ==> best_score == i32::MIN,
            ms.len() == move_count,
            ms.len() > 0,
            1 <= nodes <= 1 + sizes_over(*state, ms.take(idx as int), d),
            nodes == saturate(sn),
            idx > 0 ==> 2 <= nodes,
            !prune ==> nodes == saturate(1 + sizes_over(*state, ms.take(idx as int), d)),
            current_alpha == (if alpha >= best_score {
                alpha
            } else {
                best_score
            }),
            best_move matches Some(m) ==> ms.contains(m),
            exact_window(alpha, beta, prune) ==> {
                &&& best_score == best_over(*state, ms.take(idx as int), d)
                &&& best_score != i32::MIN ==> best_move is Some
                &&& best_move == (if best_score == i32::MIN {
                    None
                } else {
                    first_reaching(*state, ms.take(idx as int), d, best_score as int)
                })
            },
            prune && alpha < beta && current_alpha < beta ==> best_over(
                *state,
                ms.take(idx as int),
                d,
            ) <= best_score,
            prune && alpha < beta && best_score > alpha ==> best_over(
                *state,
                ms.take(idx as int),
                d,
            ) >= best_score,
            prune && alpha == beta && best_score >= alpha ==> best_over(
                *state,
                ms.take(idx as int),
                d,
            ) >= best_score,
        ensures
            idx > 0,
            e == (best_move, best_score, sn),
            idx == ms.len() || (prune && current_alpha >= beta),
        decreases moves.len(),
    {
        let mv = moves.remove(0);
        assert(mv == ms[idx as int]);
        let child_state = state.with_move(&mv).unwrap();
        assert(child_state == child(*state, ms[idx as int]));
        let (score, child_nodes) = if idx == 0 {
            let (_, s0, n0) = pvs_search(&child_state, depth - 1, current_alpha, beta, prune);
            (s0, n0)
        } else {
            let (_, s1, n1) = pvs_search(
                &child_state,
                depth - 1,
                current_alpha,
                current_alpha + 1,
                prune,
            );
            if current_alpha < s1 && s1 < beta {
                let (_, s2, n2) = pvs_search(&child_state, depth - 1, current_alpha, beta, prune);
                (s2, n2)
            } else {
                (s1, n1)
            }
        };
        proof {
            lemma_best_over_step(*state, ms, d, idx as int);
            lemma_value_in_range(child_state, d);
            let v = minimax_value(child_state, d);
            if exact_window(alpha, beta, prune) {
                if score > best_score {
                    lemma_first_reaching_beyond(*state, ms.take(idx as int), d, v);
                } else if best_score != i32::MIN {
                    assert(ms.take(idx + 1).take(idx as int) =~= ms.take(idx as int));
                    lemma_first_reaching_extend(
                        *state,
                        ms.take(idx + 1),
                        d,
                        best_score as int,
                        idx as int,
                    );
                }
            }
        }
        let ghost cs = child(*state, ms[idx as int]);
        let ghost c = if idx == 0 {
            pvs_result(cs, d, current_alpha, beta, prune)
        } else {
            let t = pvs_result(cs, d, current_alpha, (current_alpha + 1) as i32, prune);
            if current_alpha < t.1 && t.1 < beta {
                pvs_result(cs, d, current_alpha, beta, prune)
            } else {
                t
            }
        };
        let ghost pre = (best_move, best_score, current_alpha, sn);
        proof {
            lemma_saturate_add(sn, c.2);
            sn = sn + c.2;
        }
        nodes = nodes.saturating_add(child_nodes);
        if score > best_score {
            best_score = score;
            best_move = Some(mv);
        }
        current_alpha = if current_alpha >= score {
            current_alpha
        } else {
            score
        };
        proof {
            assert(pvs_scan(*state, ms, d, alpha, beta, prune, idx as int, pre.0, pre.1, pre.2, pre.3) == (if prune && current_alpha >= beta {
                (best_move, best_score, sn)
            } else {
                pvs_scan(*state, ms, d, alpha, beta, prune, idx + 1, best_move, best_score, current_alpha, sn)
            }));
        }
        idx = idx + 1;
        assert(moves@ =~= ms.skip(idx as int));
        if prune && current_alpha >= beta {
            break ;
        }
    }
    proof {
        lemma_best_over_prefix(*state, ms, d, idx as int);
        lemma_sizes_over_prefix(*state, ms, d, idx as int);
        lemma_best_over_in_range(*state, ms, d);
        if idx == ms.len() {
            assert(ms.take(idx as int) =~= ms);
        } else if exact_window(alpha, beta, prune) && best_score != i32::MIN {
            lemma_first_reaching_extend(*state, ms, d, best_score as int, idx as int);
        }
    }
    (best_move, best_score, nodes)
}

/// A principal variation search node where `Min` moves.
fn pvs_min<G: GameState>(
    state: &G,
    moves: Vec<G::Move>,
    depth: u32,
    alpha: i32,
    beta: i32,
    prune: bool,
) -> (r: (Option<G::Move>, i32, u64))
    requires
        depth >= 1,
        moves@.len() > 0,
        alpha < i32::MAX,
        beta > i32::MIN,
        state.player_spec() == MinMaxPlayer::Min,
        forall|i: int| 0 <= i < moves@.len() ==> (#[trigger] state.with_move_spec(moves@[i])) is Ok,
        forall|i: int|
            0 <= i < moves@.len() ==> well_played(#[trigger] child(*state, moves@[i]), (depth - 1) as nat),
        forall|i: int|
            0 <= i < moves@.len() ==> leaves_inside(#[trigger] child(*state, moves@[i]), (depth - 1) as nat),
    ensures
        pvs_node_post(*state, moves@, (depth - 1) as nat, alpha, beta, prune, r),
        ({
            let e = pvs_scan(*state, moves@, (depth - 1) as nat, alpha, beta, prune, 0, None, i32::MAX, beta, 1);
            r.0 == e.0 && r.1 == e.1 && r.2 == saturate(e.2)
        }),
    decreases depth, 0nat,
{
    let ghost ms = moves@;
    let ghost d = (depth - 1) as nat;
    let mut moves = moves;
    let mut best_move: Option<G::Move> = None;
    let mut best_score: i32 = i32::MAX;
    let mut current_beta: i32 = beta;
    let mut nodes: u64 = 1;
    let mut idx: usize = 0;
    let move_count = moves.len();
    let ghost mut sn: nat = 1;
    let ghost e = pvs_scan(*state, ms, d, alpha, beta, prune, 0, None, i32::MAX, beta, 1);
    assert(ms.take(0) =~= Seq::<G::Move>::empty());
    while moves.len() > 0
        invariant_except_break
            e == pvs_scan(*state, ms, d, alpha, beta, prune, idx as int, best_move, best_score, current_beta, sn),
            prune && alpha <= beta ==> current_beta >= alpha,
        invariant
            0 <= idx <= ms.len(),
            moves@ == ms.skip(idx as int),
            depth >= 1,
            d == depth - 1,
            alpha < i32::MAX,
            beta > i32::MIN,
            state.player_spec() == MinMaxPlayer::Min,
            forall|k: int| 0 <= k < ms.len() ==> (#[trigger] state.with_move_spec(ms[k])) is Ok,
            forall|k: int| 0 <= k < ms.len() ==> well_played(#[trigger] child(*state, ms[k]), d),
            forall|k: int| 0 <= k < ms.len() ==> leaves_inside(#[trigger] child(*state, ms[k]), d),
            idx > 0 ==> i32::MIN < best_score < i32::MAX,
            idx == 0 ==> best_score == i32::MAX,
            ms.len() == move_count,
            ms.len() > 0,
            1 <= nodes <= 1 + sizes_over(*state, ms.take(idx as int), d),
            nodes == saturate(sn),
            idx > 0 ==> 2 <= nodes,
            !prune ==> nodes == saturate(1 + sizes_over(*state, ms.take(idx as int), d)),
            current_beta == (if beta <= best_score {
                beta
            } else {
                best_score
            }),
            best_move matches Some(m) ==> ms.contains(m),
            exact_window(alpha, beta, prune) ==> {
                &&& best_score == best_over(*state, ms.take(idx as int), d)
                &&& best_score != i32::MAX ==> best_move is Some
                &&& best_move == (if best_score == i32::MAX {
                    None
                } else {
                    first_reaching(*state, ms.take(idx as int), d, best_score as int)
                })
            },
            prune && alpha < beta && best_score <= alpha ==> best_over(
                *state,
                ms.take(idx as int),
                d,
            ) <= best_score,
            prune && alpha < beta && best_score > alpha ==> best_over(
                *state,
                ms.take(idx as int),
                d,
            ) >= best_score,
            prune && alpha < beta && alpha < best_score < beta ==> best_over(
                *state,
                ms.take(idx as int),
                d,
            ) <= best_score,
            prune && alpha == beta && best_score >= alpha ==> best_over(
                *state,
                ms.take(idx as int),
                d,
            ) >= best_score,
        ensures
            idx > 0,
            e == (best_move, best_score, sn),
            idx == ms.len() || (prune && current_beta < alpha),
        decreases moves.len(),
    {
        let mv = moves.remove(0);
        assert(mv == ms[idx as int]);
        let child_state = state.with_move(&mv).unwrap();
        assert(child_state == child(*state, ms[idx as int]));
        let (score, child_nodes) = if idx == 0 {
            let (_, s0, n0) = pvs_search(&child_state, depth - 1, alpha, current_beta, prune);
            (s0, n0)
        } else {
            let (_, s1, n1) = pvs_search(
                &child_state,
                depth - 1,
                current_beta - 1,
                current_beta,
                prune,
            );
            if alpha < s1 && s1 < current_beta {
                let (_, s2, n2) = pvs_search(&child_state, depth - 1, alpha, current_beta, prune);
                (s2, n2)
            } else {
                (s1, n1)
            }
        };
        proof {
            lemma_best_over_step(*state, ms, d, idx as int);
            lemma_value_in_range(child_state, d);
            let v = minimax_value(child_state, d);
            if exact_window(alpha, beta, prune) {
                if score < best_score {
                    lemma_first_reaching_beyond(*state, ms.take(idx as int), d, v);
                } else if best_score != i32::MAX {
                    assert(ms.take(idx + 1).take(idx as int) =~= ms.take(idx as int));
                    lemma_first_reaching_extend(
                        *state,
                        ms.take(idx + 1),
                        d,
                        best_score as int,
                        idx as int,
                    );
                }
            }
        }
        let ghost cs = child(*state, ms[idx as int]);
        let ghost c = if idx == 0 {
            pvs_result(cs, d, alpha, current_beta, prune)
        } else {
            let t = pvs_result(cs, d, (current_beta - 1) as i32, current_beta, prune);
            if alpha < t.1 && t.1 < current_beta {
                pvs_result(cs, d, alpha, current_beta, prune)
            } else {
                t
            }
        };
        let ghost pre = (best_move, best_score, current_beta, sn);
        proof {
            lemma_saturate_add(sn, c.2);
            sn = sn + c.2;
        }
        nodes = nodes.saturating_add(child_nodes);
        if score < best_score {
            best_score = score;
            best_move = Some(mv);
        }
        current_beta = if current_beta <= score {
            current_beta
        } else {
            score
        };
        proof {
            assert(pvs_scan(*state, ms, d, alpha, beta, prune, idx as int, pre.0, pre.1, pre.2, pre.3) == (if prune && current_beta < alpha {
                (best_move, best_score, sn)
            } else {
                pvs_scan(*state, ms, d, alpha, beta, prune, idx + 1, best_move, best_score, current_beta, sn)
            }));
        }
        idx = idx + 1;
        assert(moves@ =~= ms.skip(idx as int));
        if prune && current_beta < alpha {
            break ;
        }
    }
    proof {
        lemma_best_over_prefix(*state, ms, d, idx as int);
        lemma_sizes_over_prefix(*state, ms, d, idx as int);
        lemma_best_over_in_range(*state, ms, d);
        if idx == ms.len() {
            assert(ms.take(idx as int) =~= ms);
        }
    }
    (best_move, best_score, nodes)
}

/// Searches the game tree of `state` with principal variation search,
/// `config.depth` plies deep, pruning when `config.use_alpha_beta` is set.
///
/// Without pruning, or with pruning on the full window, the score is the
/// minimax value and the move is the first legal move reaching it, as for
/// [`minimax`]; with pruning the score bounds the value as a fail-soft search
/// promises. In every window the move, score and count of visited states are
/// those of `pvs_result`. The null windows are one wider than the current bound, so when
/// the search goes below a root that is not over, the heuristic values in
/// the tree must lie strictly inside the `i32` range and the window must
/// leave room above `alpha` and below `beta`; a root at depth 0, or a
/// finished game, is scored for any window and any heuristic value.
pub fn minimax_pvs<G: GameState>(state: &G, config: &SearchConfig) -> (r: SearchResult<G::Move>)
    requires
        well_played(*state, config.depth as nat),
        config.depth >= 1 && state.outcome_spec() is None ==> {
            &&& leaves_inside(*state, config.depth as nat)
            &&& config.alpha < i32::MAX
            &&& config.beta > i32::MIN
        },
    ensures
        r.depth_reached == config.depth,
        ({
            let e = pvs_result(*state, config.depth as nat, config.alpha, config.beta, config.use_alpha_beta);
            r.best_move == e.0 && r.score == e.1 && r.nodes_visited == saturate(e.2)
        }),
        pvs_post(
            *state,
            config.depth as nat,
            config.alpha,
            config.beta,
            config.use_alpha_beta,
            (r.best_move, r.score, r.nodes_visited),
        ),
{
    let start = clock_now();
    let (best_move, score, nodes_visited) = pvs_search(
        state,
        config.depth,
        config.alpha,
        config.beta,
        config.use_alpha_beta,
    );
    let millis_spent = nanos_since(&start) / 1_000_000;
    SearchResult { best_move, score, nodes_visited, millis_spent, depth_reached: config.depth }
}

/// Searches like [`minimax`], trying first in each state the move that
/// `cache` holds for it, and records the best move found for `state` in the
/// cache: a clone of `state` then maps to a clone of the move, and nothing
/// else changes. Where the keys' `==` and hash and the moves' `==` agree
/// with equality in specifications, the move returned is the first of the
/// legal moves, with the cached move for `state` tried first, that reaches
/// the minimax value.
fn minimax_with_cache<G: GameState + Eq + Hash>(
    state: &G,
    config: &SearchConfig,
    cache: &mut HashMap<G, G::Move>,
) -> (r: SearchResult<G::Move>)
    requires
        well_played(*state, config.depth as nat),
    ensures
        search_result_post(*state, *config, r, false),
        obeys_key_model::<G>() && obeys_concrete_eq::<G::Move>() && exact_window(
            config.alpha,
            config.beta,
            config.use_alpha_beta,
        ) ==> r.best_move == best_move_hinted(
            *state,
            config.depth as nat,
            cached_hint(old(cache)@, *state),
        ),
        obeys_key_model::<G>() ==> match r.best_move {
            Some(m) => exists|k: G, v: G::Move|
                cloned(*state, k) && cloned(m, v) && final(cache)@ == old(cache)@.insert(k, v),
            None => final(cache)@ == old(cache)@,
        },
{
    proof {
        broadcast use vstd::std_specs::hash::group_hash_axioms;
    }
    let start = clock_now();
    let (best_move, score, nodes_visited) = ab_search(
        state,
        config.depth,
        config.alpha,
        config.beta,
        config.use_alpha_beta,
        &*cache,
    );
    if let Some(mv) = &best_move {
        let key = state.clone();
        let value = mv.clone();
        assert(cloned(*state, key) && cloned(*mv, value));
        cache.insert(key, value);
    }
    let millis_spent = nanos_since(&start) / 1_000_000;
    SearchResult { best_move, score, nodes_visited, millis_spent, depth_reached: config.depth }
}

/// One depth of iterative deepening where the cache's contents are known:
/// a cache holding `iterative_cache` for depth `d - 1`, searched at depth `d`
/// with the hint it gives and updated with the move found, holds
/// `iterative_cache` for depth `d`, and that move is `iterative_move`.
proof fn lemma_cache_step<G: GameState>(
    s: G,
    config: SearchConfig,
    d: nat,
    before: Map<G, G::Move>,
    after: Map<G, G::Move>,
    found: Option<G::Move>,
)
    requires
        d >= 1,
        cache_known(s, config) ==> before == iterative_cache(s, (d - 1) as nat),
        cache_known(s, config) ==> found == best_move_hinted(s, d, cached_hint(before, s)),
        obeys_key_model::<G>() ==> match found {
            Some(m) => exists|k: G, v: G::Move| cloned(s, k) && cloned(m, v) && after == before.insert(k, v),
            None => after == before,
        },
    ensures
        cache_known(s, config) ==> after == iterative_cache(s, d),
        cache_known(s, config) ==> found == iterative_move(s, d),
{
    if cache_known(s, config) {
        assert(cached_hint(before, s) == iterative_hint(s, (d - 1) as nat));
        assert(found == iterative_move(s, d));
        match found {
            Some(m) => {
                let (k, v) = choose|k: G, v: G::Move| cloned(s, k) && cloned(m, v) && after == before.insert(k, v);
                assert(k == s);
                assert(v == m);
                assert(after =~= iterative_cache(s, d));
            },
            None => {},
        }
    }
}

/// Whether iterative deepening searches one depth more: only while the time
/// budget `deadline_nanos` is not spent after `elapsed_nanos`, and the last
/// depth, which took `last_depth_nanos`, would fit in the time left.
pub fn deepening_allowed(deadline_nanos: u128, elapsed_nanos: u128, last_depth_nanos: u128) -> (go: bool)
    ensures
        go == (elapsed_nanos < deadline_nanos && last_depth_nanos <= deadline_nanos - elapsed_nanos),
{
    if elapsed_nanos >= deadline_nanos {
        return false;
    }
    let remaining = deadline_nanos - elapsed_nanos;
    last_depth_nanos <= remaining
}

/// The move iterative deepening picks at depth `d`: the search that tries
/// first the move the cache holds for the root after depths 1 to `d - 1`.
pub open spec fn iterative_move<G: GameState>(s: G, d: nat) -> Option<G::Move>
    decreases d, 0nat,
{
    if d == 0 {
        None
    } else {
        best_move_hinted(s, d, iterative_hint(s, (d - 1) as nat))
    }
}

/// The move the cache holds for the root after depths 1 to `d`: the best
/// move of the deepest of them that found one.
pub open spec fn iterative_hint<G: GameState>(s: G, d: nat) -> Option<G::Move>
    decreases d, 1nat,
{
    if d == 0 {
        None
    } else {
        match iterative_move(s, d) {
            Some(m) => Some(m),
            None => iterative_hint(s, (d - 1) as nat),
        }
    }
}

/// The cache after depths 1 to `d`: the root mapped to `iterative_hint`.
pub open spec fn iterative_cache<G: GameState>(s: G, d: nat) -> Map<G, G::Move> {
    match iterative_hint(s, d) {
        Some(m) => Map::empty().insert(s, m),
        None => Map::empty(),
    }
}

/// A clone of `s` is `s`, and a clone of a move is that move.
pub open spec fn clones_exact<G: GameState>(s: G) -> bool {
    &&& forall|k: G| #[trigger] cloned(s, k) ==> k == s
    &&& forall|m: G::Move, v: G::Move| #[trigger] cloned(m, v) ==> v == m
}

/// The conditions under which the moves held in the cache, and so the moves
/// picked, are known: keys whose `==` and hash, and moves whose `==`, agree
/// with equality in specifications, clones equal to what they clone, and a
/// window in which the search is exact.
pub open spec fn cache_known<G: GameState>(s: G, config: SearchConfig) -> bool {
    &&& obeys_key_model::<G>()
    &&& obeys_concrete_eq::<G::Move>()
    &&& clones_exact(s)
    &&& exact_window(config.alpha, config.beta, config.use_alpha_beta)
}

/// What iterative deepening of `state` with `base_config` returns: the
/// result of a completed search at some depth from 1 to `base_config.depth`,
/// the full depth when there is no time budget, whose move is a legal move
/// reaching the minimax value at that depth.
pub open spec fn iterative_post<G: GameState>(
    state: G,
    base_config: SearchConfig,
    r: SearchResult<G::Move>,
) -> bool {
    &&& 1 <= r.depth_reached <= base_config.depth
    &&& base_config.time_ms is None ==> r.depth_reached == base_config.depth
    &&& search_post(
        state,
        r.depth_reached as nat,
        base_config.alpha,
        base_config.beta,
        base_config.use_alpha_beta,
        false,
        (r.best_move, r.score, r.nodes_visited),
    )
    &&& cache_known(state, base_config) ==> r.best_move == iterative_move(state, r.depth_reached as nat)
}

/// Whether a search that began `elapsed` nanoseconds ago, with a budget of
/// `deadline` nanoseconds, has time left for a depth that takes `last`
/// nanoseconds: the budget is not spent and that depth fits in what is left.
pub open spec fn time_left(deadline: int, elapsed: int, last: int) -> bool {
    elapsed < deadline && last <= deadline - elapsed
}

/// What the clock checks `checks` of iterative deepening, with budget
/// `time_ms` and maximum depth `max_depth`, say of the depth `reached`:
/// without a budget there is no check and the maximum depth is reached; with
/// one, depth 1 is always searched, every check but the last found time left
/// and led one depth further, and the search stops short of the maximum only
/// after a last check that found no time left.
pub open spec fn deepening_trace(
    time_ms: Option<u64>,
    max_depth: nat,
    checks: Seq<(u128, u128)>,
    reached: nat,
) -> bool {
    match time_ms {
        None => checks.len() == 0 && reached == max_depth,
        Some(ms) => {
            let dl = ms as int * 1_000_000;
            &&& 1 <= reached <= max_depth
            &&& checks.len() == reached - 1 + (if reached < max_depth {
                1int
            } else {
                0int
            })
            &&& forall|i: int|
                0 <= i < reached - 1 ==> time_left(dl, #[trigger] checks[i].0 as int, checks[i].1 as int)
            &&& reached < max_depth ==> !time_left(
                dl,
                checks[reached - 1].0 as int,
                checks[reached - 1].1 as int,
            )
        },
    }
}

/// Searches `state` with iterative deepening: depth 1, 2, ... up to
/// `base_config.depth`, sharing a cache of best moves between the depths so
/// that each search tries the previous best move first. Depth 1 is always
/// searched, so a budget of zero milliseconds, which no search fits in, is
/// not accepted. Before each later depth, the search stops when the time
/// budget `base_config.time_ms` is spent, or when the last depth took longer
/// than the time left. The result is that of the deepest completed search.
pub fn iterative_minimax<G: GameState + Eq + Hash>(state: &G, base_config: &SearchConfig) -> (r:
    SearchResult<G::Move>)
    requires
        base_config.depth >= 1,
        base_config.time_ms != Some(0u64),
        well_played(*state, base_config.depth as nat),
    ensures
        iterative_post(*state, *base_config, r),
        exists|checks: Seq<(u128, u128)>|
            deepening_trace(base_config.time_ms, base_config.depth as nat, checks, r.depth_reached as nat),
{
    let mut checks: Vec<(u128, u128)> = Vec::new();
    iterative_minimax_traced(state, base_config, &mut checks)
}

/// Iterative deepening as [`iterative_minimax`] does it, recording in
/// `checks`, for each look at the clock before a further depth, the
/// nanoseconds elapsed since the search began and those the last depth took.
/// The depth reached follows from those readings as `deepening_trace` says:
/// the search goes one depth further after every check that finds time left,
/// and stops short of the maximum depth only after one that does not.
pub fn iterative_minimax_traced<G: GameState + Eq + Hash>(
    state: &G,
    base_config: &SearchConfig,
    checks: &mut Vec<(u128, u128)>,
) -> (r: SearchResult<G::Move>)
    requires
        base_config.depth >= 1,
        base_config.time_ms != Some(0u64),
        well_played(*state, base_config.depth as nat),
        old(checks)@.len() == 0,
    ensures
        iterative_post(*state, *base_config, r),
        deepening_trace(base_config.time_ms, base_config.depth as nat, final(checks)@, r.depth_reached as nat),
{
    let mut cache: HashMap<G, G::Move> = HashMap::new();
    let start = clock_now();
    let deadline: Option<u128> = match base_config.time_ms {
        Some(ms) => Some(ms as u128 * 1_000_000),
        None => None,
    };
    let mut depth: u32 = 1;
    let cfg = SearchConfig {
        depth,
        alpha: base_config.alpha,
        beta: base_config.beta,
        use_alpha_beta: base_config.use_alpha_beta,
        time_ms: base_config.time_ms,
    };
    let depth_start = clock_now();
    proof {
        lemma_well_played_shallower(*state, base_config.depth as nat, 1);
    }
    let ghost known = cache_known(*state, *base_config);
    let ghost before = cache@;
    let mut best_result = minimax_with_cache(state, &cfg, &mut cache);
    proof {
        lemma_cache_step(*state, *base_config, 1, before, cache@, best_result.best_move);
    }
    let mut last_depth_nanos = nanos_since(&depth_start);
    while depth < base_config.depth
        invariant_except_break
            base_config.time_ms matches Some(ms) ==> {
                &&& checks@.len() == depth - 1
                &&& forall|i: int|
                    0 <= i < checks@.len() ==> time_left(
                        ms as int * 1_000_000,
                        #[trigger] checks@[i].0 as int,
                        checks@[i].1 as int,
                    )
            },
        invariant
            1 <= depth <= base_config.depth,
            best_result.depth_reached == depth,
            deadline is None <==> base_config.time_ms is None,
            well_played(*state, base_config.depth as nat),
            search_post(
                *state,
                depth as nat,
                base_config.alpha,
                base_config.beta,
                base_config.use_alpha_beta,
                false,
                (best_result.best_move, best_result.score, best_result.nodes_visited),
            ),
            known == cache_known(*state, *base_config),
            known ==> cache@ == iterative_cache(*state, depth as nat),
            known ==> best_result.best_move == iterative_move(*state, depth as nat),
            deadline == (match base_config.time_ms {
                Some(ms) => Some((ms as int * 1_000_000) as u128),
                None => None,
            }),
            base_config.time_ms is None ==> checks@.len() == 0,
        ensures
            deadline is None ==> depth == base_config.depth,
            deepening_trace(base_config.time_ms, base_config.depth as nat, checks@, depth as nat),
        decreases base_config.depth - depth,
    {
        if let Some(dl) = deadline {
            let elapsed = nanos_since(&start);
            checks.push((elapsed, last_depth_nanos));
            if !deepening_allowed(dl, elapsed, last_depth_nanos) {
                break ;
            }
        }
        depth = depth + 1;
        let cfg = SearchConfig {
            depth,
            alpha: base_config.alpha,
            beta: base_config.beta,
            use_alpha_beta: base_config.use_alpha_beta,
            time_ms: base_config.time_ms,
        };
        let depth_start = clock_now();
        proof {
            lemma_well_played_shallower(*state, base_config.depth as nat, depth as nat);
        }
        let ghost before = cache@;
        best_result = minimax_with_cache(state, &cfg, &mut cache);
        proof {
            lemma_cache_step(*state, *base_config, depth as nat, before, cache@, best_result.best_move);
        }
        last_depth_nanos = nanos_since(&depth_start);
    }
    best_result
}

} // verus!
