//! The minimax value of a game state, as the search is proved against.
use vstd::prelude::*;
use crate::ai::game_state::GameState;
use crate::ai::outcome::Outcome;
use crate::ai::player::MinMaxPlayer;

verus! {

/// Score of a won game for `Max`.
pub const WIN_SCORE: i32 = 1_000_000;

/// Score of a won game for `Min`.
pub const LOSS_SCORE: i32 = -1_000_000;

/// The score of a finished game.
pub open spec fn outcome_score(o: Outcome) -> int {
    match o {
        Outcome::Win(MinMaxPlayer::Max) => WIN_SCORE as int,
        Outcome::Win(MinMaxPlayer::Min) => LOSS_SCORE as int,
        Outcome::Draw => 0,
    }
}

/// The score a node starts from before any child is looked at: the worst
/// score for the player to move.
pub open spec fn init_score(p: MinMaxPlayer) -> int {
    match p {
        MinMaxPlayer::Max => i32::MIN as int,
        MinMaxPlayer::Min => i32::MAX as int,
    }
}

/// Whether `score` is strictly better than `best` for player `p`.
pub open spec fn improves(p: MinMaxPlayer, score: int, best: int) -> bool {
    match p {
        MinMaxPlayer::Max => score > best,
        MinMaxPlayer::Min => score < best,
    }
}

/// The better of `best` and `score` for player `p`.
pub open spec fn combine(p: MinMaxPlayer, best: int, score: int) -> int {
    if improves(p, score, best) {
        score
    } else {
        best
    }
}

/// The state reached by playing `m` (the state itself if `m` cannot be played).
pub open spec fn child<G: GameState>(s: G, m: G::Move) -> G {
    match s.with_move_spec(m) {
        Ok(c) => c,
        Err(_) => s,
    }
}

/// The minimax value of `s` searched `depth` plies deep: the outcome's score
/// for a finished game, the heuristic at depth 0 or, as a last resort, where
/// a game that is not over has no legal move, and otherwise the best child
/// value for the player to move.
pub open spec fn minimax_value<G: GameState>(s: G, depth: nat) -> int
    decreases depth, 0nat,
{
    match s.outcome_spec() {
        Some(o) => outcome_score(o),
        None => if depth == 0 || s.legal_moves_spec().len() == 0 {
            s.evaluate_spec() as int
        } else {
            best_over(s, s.legal_moves_spec(), (depth - 1) as nat)
        },
    }
}

/// The best value, for the player to move in `s`, among the children of `s`
/// reached by `moves`, each searched `d` plies deep; the initial score when
/// `moves` is empty.
pub open spec fn best_over<G: GameState>(s: G, moves: Seq<G::Move>, d: nat) -> int
    decreases d, moves.len(),
{
    if moves.len() == 0 {
        init_score(s.player_spec())
    } else {
        combine(
            s.player_spec(),
            best_over(s, moves.drop_last(), d),
            minimax_value(child(s, moves.last()), d),
        )
    }
}

/// The first of `moves` whose child has value `target` when searched `d` plies deep.
pub open spec fn first_reaching<G: GameState>(s: G, moves: Seq<G::Move>, d: nat, target: int) -> Option<
    G::Move,
>
    decreases moves.len(),
{
    if moves.len() == 0 {
        None
    } else {
        match first_reaching(s, moves.drop_last(), d, target) {
            Some(m) => Some(m),
            None => if minimax_value(child(s, moves.last()), d) == target {
                Some(moves.last())
            } else {
                None
            },
        }
    }
}

/// The move minimax picks: the first legal move whose child reaches the
/// minimax value; none for a finished game, at depth 0, or when the value is
/// no better than the initial score.
pub open spec fn best_move_spec<G: GameState>(s: G, depth: nat) -> Option<G::Move> {
    if s.outcome_spec() is Some || depth == 0 {
        None
    } else if minimax_value(s, depth) == init_score(s.player_spec()) {
        None
    } else {
        first_reaching(s, s.legal_moves_spec(), (depth - 1) as nat, minimax_value(s, depth))
    }
}

/// The number of states in the game tree of `s` cut at `depth`.
pub open spec fn tree_size<G: GameState>(s: G, depth: nat) -> nat
    decreases depth, 0nat,
{
    if s.outcome_spec() is Some || depth == 0 || s.legal_moves_spec().len() == 0 {
        1
    } else {
        1 + sizes_over(s, s.legal_moves_spec(), (depth - 1) as nat)
    }
}

/// The total size of the game trees of the children of `s` reached by `moves`.
pub open spec fn sizes_over<G: GameState>(s: G, moves: Seq<G::Move>, d: nat) -> nat
    decreases d, moves.len(),
{
    if moves.len() == 0 {
        0
    } else {
        sizes_over(s, moves.drop_last(), d) + tree_size(child(s, moves.last()), d)
    }
}

/// The smaller of `n` and `u64::MAX`: what a saturating node counter holds.
pub open spec fn saturate(n: nat) -> int {
    if n > u64::MAX {
        u64::MAX as int
    } else {
        n as int
    }
}

/// Adding two saturated counts, saturating, saturates their sum.
pub proof fn lemma_saturate_add(a: nat, b: nat)
    ensures
        (if saturate(a) + saturate(b) > u64::MAX {
            u64::MAX as int
        } else {
            saturate(a) + saturate(b)
        }) == saturate(a + b),
{
}

/// Minimax values fit in an `i32`.
pub proof fn lemma_value_in_range<G: GameState>(s: G, depth: nat)
    ensures
        i32::MIN <= minimax_value(s, depth) <= i32::MAX,
    decreases depth, 0nat,
{
    match s.outcome_spec() {
        Some(o) => {},
        None => {
            if depth > 0 {
                lemma_best_over_in_range(s, s.legal_moves_spec(), (depth - 1) as nat);
            }
        },
    }
}

/// Best child values fit in an `i32`.
pub proof fn lemma_best_over_in_range<G: GameState>(s: G, moves: Seq<G::Move>, d: nat)
    ensures
        i32::MIN <= best_over(s, moves, d) <= i32::MAX,
    decreases d, moves.len(),
{
    if moves.len() > 0 {
        lemma_best_over_in_range(s, moves.drop_last(), d);
        lemma_value_in_range(child(s, moves.last()), d);
    }
}

/// Extending the moves by one combines the best so far with the new child.
pub proof fn lemma_best_over_step<G: GameState>(s: G, moves: Seq<G::Move>, d: nat, i: int)
    requires
        0 <= i < moves.len(),
    ensures
        best_over(s, moves.take(i + 1), d) == combine(
            s.player_spec(),
            best_over(s, moves.take(i), d),
            minimax_value(child(s, moves[i]), d),
        ),
        sizes_over(s, moves.take(i + 1), d) == sizes_over(s, moves.take(i), d) + tree_size(
            child(s, moves[i]),
            d,
        ),
        first_reaching(s, moves.take(i + 1), d, minimax_value(child(s, moves[i]), d))
            == (match first_reaching(
            s,
            moves.take(i),
            d,
            minimax_value(child(s, moves[i]), d),
        ) {
            Some(m) => Some(m),
            None => Some(moves[i]),
        }),
{
    assert(moves.take(i + 1).drop_last() =~= moves.take(i));
    assert(moves.take(i + 1).last() == moves[i]);
}

/// A prefix that already reaches `target` decides `first_reaching`.
pub proof fn lemma_first_reaching_extend<G: GameState>(
    s: G,
    moves: Seq<G::Move>,
    d: nat,
    target: int,
    i: int,
)
    requires
        0 <= i <= moves.len(),
        first_reaching(s, moves.take(i), d, target) is Some,
    ensures
        first_reaching(s, moves, d, target) == first_reaching(s, moves.take(i), d, target),
    decreases moves.len() - i,
{
    if i < moves.len() {
        assert(moves.take(i + 1).drop_last() =~= moves.take(i));
        lemma_first_reaching_extend(s, moves, d, target, i + 1);
    } else {
        assert(moves.take(i) =~= moves);
    }
}

/// A move found by `first_reaching` is one of the moves and reaches the target.
pub proof fn lemma_first_reaching_found<G: GameState>(
    s: G,
    moves: Seq<G::Move>,
    d: nat,
    target: int,
)
    requires
        first_reaching(s, moves, d, target) is Some,
    ensures
        moves.contains(first_reaching(s, moves, d, target)->0),
        minimax_value(child(s, first_reaching(s, moves, d, target)->0), d) == target,
    decreases moves.len(),
{
    if moves.len() > 0 {
        match first_reaching(s, moves.drop_last(), d, target) {
            Some(m) => {
                lemma_first_reaching_found(s, moves.drop_last(), d, target);
                let k = choose|k: int| 0 <= k < moves.drop_last().len() && moves.drop_last()[k] == m;
                assert(moves[k] == m);
            },
            None => {
                assert(moves[moves.len() - 1] == moves.last());
            },
        }
    }
}

/// No child value lies beyond the best one, so a target beyond it is never reached.
pub proof fn lemma_first_reaching_beyond<G: GameState>(
    s: G,
    moves: Seq<G::Move>,
    d: nat,
    target: int,
)
    requires
        improves(s.player_spec(), target, best_over(s, moves, d)),
    ensures
        first_reaching(s, moves, d, target) is None,
    decreases moves.len(),
{
    if moves.len() > 0 {
        lemma_best_over_bounds_child(s, moves, d, moves.len() - 1);
        assert(moves[moves.len() - 1] == moves.last());
        assert(improves(s.player_spec(), target, best_over(s, moves.drop_last(), d)));
        lemma_first_reaching_beyond(s, moves.drop_last(), d, target);
    }
}

/// The best value is at least as good as every child value and as the initial score.
pub proof fn lemma_best_over_bounds_child<G: GameState>(
    s: G,
    moves: Seq<G::Move>,
    d: nat,
    k: int,
)
    requires
        0 <= k < moves.len(),
    ensures
        !improves(s.player_spec(), minimax_value(child(s, moves[k]), d), best_over(s, moves, d)),
        !improves(s.player_spec(), init_score(s.player_spec()), best_over(s, moves, d)),
    decreases moves.len(),
{
    lemma_best_over_bounds_init(s, moves, d);
    if k < moves.len() - 1 {
        assert(moves.drop_last()[k] == moves[k]);
        lemma_best_over_bounds_child(s, moves.drop_last(), d, k);
    }
}

/// The best value is never worse than the initial score.
pub proof fn lemma_best_over_bounds_init<G: GameState>(s: G, moves: Seq<G::Move>, d: nat)
    ensures
        !improves(s.player_spec(), init_score(s.player_spec()), best_over(s, moves, d)),
    decreases moves.len(),
{
    if moves.len() > 0 {
        lemma_best_over_bounds_init(s, moves.drop_last(), d);
    }
}

/// The best over a prefix is never better than the best over all the moves.
pub proof fn lemma_best_over_prefix<G: GameState>(s: G, moves: Seq<G::Move>, d: nat, i: int)
    requires
        0 <= i <= moves.len(),
    ensures
        !improves(s.player_spec(), best_over(s, moves.take(i), d), best_over(s, moves, d)),
    decreases moves.len() - i,
{
    if i < moves.len() {
        lemma_best_over_step(s, moves, d, i);
        lemma_best_over_prefix(s, moves, d, i + 1);
    } else {
        assert(moves.take(i) =~= moves);
    }
}

/// A best value other than the initial score is reached by some move.
pub proof fn lemma_best_over_reached<G: GameState>(s: G, moves: Seq<G::Move>, d: nat)
    requires
        best_over(s, moves, d) != init_score(s.player_spec()),
    ensures
        first_reaching(s, moves, d, best_over(s, moves, d)) is Some,
    decreases moves.len(),
{
    if moves.len() > 0 {
        let prev = best_over(s, moves.drop_last(), d);
        let v = minimax_value(child(s, moves.last()), d);
        if prev == best_over(s, moves, d) {
            lemma_best_over_reached(s, moves.drop_last(), d);
        }
    }
}

/// The trees below a prefix of the moves are no larger than those below all of them.
pub proof fn lemma_sizes_over_prefix<G: GameState>(s: G, moves: Seq<G::Move>, d: nat, i: int)
    requires
        0 <= i <= moves.len(),
    ensures
        sizes_over(s, moves.take(i), d) <= sizes_over(s, moves, d),
    decreases moves.len() - i,
{
    if i < moves.len() {
        lemma_best_over_step(s, moves, d, i);
        lemma_sizes_over_prefix(s, moves, d, i + 1);
    } else {
        assert(moves.take(i) =~= moves);
    }
}

/// `moves` with its first and `p`-th entries exchanged.
pub open spec fn swapped<T>(moves: Seq<T>, p: int) -> Seq<T> {
    moves.update(0, moves[p]).update(p, moves[0])
}

/// The first index below `n` at which `s` holds `x`, if any.
pub open spec fn position_upto<T>(s: Seq<T>, x: T, n: int) -> Option<int>
    decreases n,
{
    if n <= 0 {
        None
    } else {
        match position_upto(s, x, n - 1) {
            Some(p) => Some(p),
            None => if s[n - 1] == x {
                Some(n - 1)
            } else {
                None
            },
        }
    }
}

/// `moves` with the hinted move, where it occurs, exchanged with the first one.
pub open spec fn hinted_order<T>(moves: Seq<T>, hint: Option<T>) -> Seq<T> {
    match hint {
        Some(h) => match position_upto(moves, h, moves.len() as int) {
            Some(p) => swapped(moves, p),
            None => moves,
        },
        None => moves,
    }
}

/// The move a search picks when it tries the hinted move first: the first
/// move of the hinted order whose child reaches the minimax value.
pub open spec fn best_move_hinted<G: GameState>(s: G, depth: nat, hint: Option<G::Move>) -> Option<G::Move> {
    if s.outcome_spec() is Some || depth == 0 {
        None
    } else if minimax_value(s, depth) == init_score(s.player_spec()) {
        None
    } else {
        first_reaching(
            s,
            hinted_order(s.legal_moves_spec(), hint),
            (depth - 1) as nat,
            minimax_value(s, depth),
        )
    }
}

/// A position found by `position_upto` holds the value looked for, and a
/// value that is found is found.
pub proof fn lemma_position_upto<T>(s: Seq<T>, x: T, n: int)
    requires
        0 <= n <= s.len(),
    ensures
        position_upto(s, x, n) matches Some(p) ==> 0 <= p < n && s[p] == x,
        position_upto(s, x, n) is None ==> forall|i: int| 0 <= i < n ==> s[i] != x,
    decreases n,
{
    if n > 0 {
        lemma_position_upto(s, x, n - 1);
    }
}

/// The first of `moves` is the first to reach `target` when it does.
pub proof fn lemma_first_reaching_head<G: GameState>(s: G, moves: Seq<G::Move>, d: nat, target: int)
    requires
        moves.len() > 0,
        minimax_value(child(s, moves[0]), d) == target,
    ensures
        first_reaching(s, moves, d, target) == Some(moves[0]),
    decreases moves.len(),
{
    if moves.len() > 1 {
        assert(moves.drop_last()[0] == moves[0]);
        lemma_first_reaching_head(s, moves.drop_last(), d, target);
    } else {
        assert(moves.drop_last().len() == 0);
        assert(first_reaching(s, moves.drop_last(), d, target) is None);
        assert(moves.last() == moves[0]);
    }
}

/// `ms` is `moves`, possibly with one later move brought to the front by an exchange.
pub open spec fn is_reordering<T>(moves: Seq<T>, ms: Seq<T>) -> bool {
    ms == moves || exists|p: int| 0 < p < moves.len() && ms == swapped(moves, p)
}

/// Replacing one move changes the total tree size by the difference of the two trees.
pub proof fn lemma_sizes_over_update<G: GameState>(
    s: G,
    moves: Seq<G::Move>,
    d: nat,
    j: int,
    m: G::Move,
)
    requires
        0 <= j < moves.len(),
    ensures
        sizes_over(s, moves.update(j, m), d) + tree_size(child(s, moves[j]), d) == sizes_over(
            s,
            moves,
            d,
        ) + tree_size(child(s, m), d),
    decreases moves.len(),
{
    let u = moves.update(j, m);
    if j == moves.len() - 1 {
        assert(u.drop_last() =~= moves.drop_last());
    } else {
        assert(u.drop_last() =~= moves.drop_last().update(j, m));
        lemma_sizes_over_update(s, moves.drop_last(), d, j, m);
    }
}

/// Two move lists with the same moves have the same best value.
pub proof fn lemma_best_over_same_moves<G: GameState>(
    s: G,
    a: Seq<G::Move>,
    b: Seq<G::Move>,
    d: nat,
)
    requires
        forall|m: G::Move| a.contains(m) <==> b.contains(m),
    ensures
        best_over(s, a, d) == best_over(s, b, d),
{
    lemma_best_over_not_worse(s, a, b, d);
    lemma_best_over_not_worse(s, b, a, d);
    lemma_best_over_in_range(s, a, d);
    lemma_best_over_in_range(s, b, d);
}

/// When every move of `b` is a move of `a`, the best over `b` does not beat the best over `a`.
pub proof fn lemma_best_over_not_worse<G: GameState>(
    s: G,
    a: Seq<G::Move>,
    b: Seq<G::Move>,
    d: nat,
)
    requires
        forall|m: G::Move| b.contains(m) ==> a.contains(m),
    ensures
        !improves(s.player_spec(), best_over(s, b, d), best_over(s, a, d)),
{
    let vb = best_over(s, b, d);
    lemma_best_over_bounds_init(s, a, d);
    if vb != init_score(s.player_spec()) {
        lemma_best_over_reached(s, b, d);
        lemma_first_reaching_found(s, b, d, vb);
        let m = first_reaching(s, b, d, vb)->0;
        assert(a.contains(m));
        let k = choose|k: int| 0 <= k < a.len() && a[k] == m;
        lemma_best_over_bounds_child(s, a, d, k);
    }
}

/// Reordering the moves keeps their best value, their total tree size and the set of moves.
pub proof fn lemma_reordering<G: GameState>(s: G, moves: Seq<G::Move>, ms: Seq<G::Move>, d: nat)
    requires
        is_reordering(moves, ms),
    ensures
        best_over(s, ms, d) == best_over(s, moves, d),
        sizes_over(s, ms, d) == sizes_over(s, moves, d),
        forall|m: G::Move| ms.contains(m) <==> moves.contains(m),
        ms.len() == moves.len(),
{
    if ms != moves {
        let p = choose|p: int| 0 < p < moves.len() && ms == swapped(moves, p);
        let u = moves.update(0, moves[p]);
        lemma_sizes_over_update(s, moves, d, 0, moves[p]);
        lemma_sizes_over_update(s, u, d, p, moves[0]);
        assert forall|m: G::Move| ms.contains(m) <==> moves.contains(m) by {
            if ms.contains(m) {
                let k = choose|k: int| 0 <= k < ms.len() && ms[k] == m;
                if k == 0 {
                    assert(moves[p] == m);
                } else if k == p {
                    assert(moves[0] == m);
                } else {
                    assert(moves[k] == m);
                }
            }
            if moves.contains(m) {
                let k = choose|k: int| 0 <= k < moves.len() && moves[k] == m;
                if k == 0 {
                    assert(ms[p] == m);
                } else if k == p {
                    assert(ms[0] == m);
                } else {
                    assert(ms[k] == m);
                }
            }
        }
        lemma_best_over_same_moves(s, ms, moves, d);
    }
}

/// Every heuristic value in the game tree of `s` cut at `depth` lies strictly
/// between `i32::MIN` and `i32::MAX`.
pub open spec fn leaves_inside<G: GameState>(s: G, depth: nat) -> bool
    decreases depth, 0nat,
{
    match s.outcome_spec() {
        Some(_) => true,
        None => if depth == 0 || s.legal_moves_spec().len() == 0 {
            i32::MIN < s.evaluate_spec() < i32::MAX
        } else {
            all_leaves_inside(s, s.legal_moves_spec(), (depth - 1) as nat)
        },
    }
}

/// `leaves_inside` holds for every child of `s` reached by `moves`, `d` plies deep.
pub open spec fn all_leaves_inside<G: GameState>(s: G, moves: Seq<G::Move>, d: nat) -> bool
    decreases d, moves.len(),
{
    moves.len() == 0 || (all_leaves_inside(s, moves.drop_last(), d) && leaves_inside(
        child(s, moves.last()),
        d,
    ))
}

/// `all_leaves_inside` is `leaves_inside` for each child.
pub proof fn lemma_all_leaves_inside<G: GameState>(s: G, moves: Seq<G::Move>, d: nat)
    ensures
        all_leaves_inside(s, moves, d) <==> forall|k: int|
            0 <= k < moves.len() ==> leaves_inside(#[trigger] child(s, moves[k]), d),
    decreases moves.len(),
{
    if moves.len() > 0 {
        lemma_all_leaves_inside(s, moves.drop_last(), d);
        assert(moves.last() == moves[moves.len() - 1]);
        if forall|k: int| 0 <= k < moves.len() ==> leaves_inside(#[trigger] child(s, moves[k]), d) {
            assert forall|k: int| 0 <= k < moves.drop_last().len() implies leaves_inside(
                #[trigger] child(s, moves.drop_last()[k]),
                d,
            ) by {
                assert(moves.drop_last()[k] == moves[k]);
            }
        }
        if all_leaves_inside(s, moves, d) {
            assert forall|k: int| 0 <= k < moves.len() implies leaves_inside(
                #[trigger] child(s, moves[k]),
                d,
            ) by {
                if k < moves.len() - 1 {
                    assert(moves.drop_last()[k] == moves[k]);
                }
            }
        }
    }
}

/// A state whose leaves lie strictly inside the `i32` range has its value there too.
pub proof fn lemma_value_inside<G: GameState>(s: G, depth: nat)
    requires
        leaves_inside(s, depth),
        well_played(s, depth),
    ensures
        i32::MIN < minimax_value(s, depth) < i32::MAX,
    decreases depth, 0nat,
{
    if s.outcome_spec() is None && depth > 0 && s.legal_moves_spec().len() > 0 {
        let ms = s.legal_moves_spec();
        let d = (depth - 1) as nat;
        lemma_best_over_inside(s, ms, d);
    }
}

/// The best value over a non-empty list of children whose leaves lie inside
/// the `i32` range lies there too.
pub proof fn lemma_best_over_inside<G: GameState>(s: G, moves: Seq<G::Move>, d: nat)
    requires
        moves.len() > 0,
        all_leaves_inside(s, moves, d),
        all_well_played(s, moves, d),
    ensures
        i32::MIN < best_over(s, moves, d) < i32::MAX,
    decreases d, moves.len(),
{
    lemma_value_inside(child(s, moves.last()), d);
    if moves.len() > 1 {
        lemma_best_over_inside(s, moves.drop_last(), d);
    } else {
        assert(moves.drop_last().len() == 0);
        assert(best_over(s, moves.drop_last(), d) == init_score(s.player_spec()));
    }
}

/// The contract of [`GameState`] that the search relies on holds in the game
/// tree of `s` cut at `depth`: every legal move of a state without an outcome
/// above the cut can be applied.
pub open spec fn well_played<G: GameState>(s: G, depth: nat) -> bool
    decreases depth, 0nat,
{
    match s.outcome_spec() {
        Some(_) => true,
        None => depth == 0 || all_well_played(s, s.legal_moves_spec(), (depth - 1) as nat),
    }
}

/// Every move in `moves` can be applied to `s`, and the contract holds below
/// each child, `d` plies deep.
pub open spec fn all_well_played<G: GameState>(s: G, moves: Seq<G::Move>, d: nat) -> bool
    decreases d, moves.len(),
{
    moves.len() == 0 || (all_well_played(s, moves.drop_last(), d) && s.with_move_spec(
        moves.last(),
    ) is Ok && well_played(child(s, moves.last()), d))
}

/// `all_well_played` is `well_played` for each child.
pub proof fn lemma_all_well_played<G: GameState>(s: G, moves: Seq<G::Move>, d: nat)
    ensures
        all_well_played(s, moves, d) <==> forall|k: int|
            0 <= k < moves.len() ==> (#[trigger] s.with_move_spec(moves[k])) is Ok && well_played(
                child(s, moves[k]),
                d,
            ),
    decreases moves.len(),
{
    if moves.len() > 0 {
        lemma_all_well_played(s, moves.drop_last(), d);
        assert(moves.last() == moves[moves.len() - 1]);
        if forall|k: int|
            0 <= k < moves.len() ==> (#[trigger] s.with_move_spec(moves[k])) is Ok && well_played(
                child(s, moves[k]),
                d,
            ) {
            assert forall|k: int| 0 <= k < moves.drop_last().len() implies (#[trigger] s.with_move_spec(
                moves.drop_last()[k],
            )) is Ok && well_played(child(s, moves.drop_last()[k]), d) by {
                assert(moves.drop_last()[k] == moves[k]);
            }
        }
        if all_well_played(s, moves, d) {
            assert forall|k: int| 0 <= k < moves.len() implies (#[trigger] s.with_move_spec(
                moves[k],
            )) is Ok && well_played(child(s, moves[k]), d) by {
                if k < moves.len() - 1 {
                    assert(moves.drop_last()[k] == moves[k]);
                }
            }
        }
    }
}

/// The contract holding down to a depth holds down to any smaller depth.
pub proof fn lemma_well_played_shallower<G: GameState>(s: G, depth: nat, d: nat)
    requires
        well_played(s, depth),
        d <= depth,
    ensures
        well_played(s, d),
    decreases depth, 0nat,
{
    if s.outcome_spec() is None && d > 0 {
        lemma_all_well_played_shallower(s, s.legal_moves_spec(), (depth - 1) as nat, (d - 1) as nat);
    }
}

/// `lemma_well_played_shallower` for each child.
pub proof fn lemma_all_well_played_shallower<G: GameState>(
    s: G,
    moves: Seq<G::Move>,
    depth: nat,
    d: nat,
)
    requires
        all_well_played(s, moves, depth),
        d <= depth,
    ensures
        all_well_played(s, moves, d),
    decreases depth, moves.len(),
{
    if moves.len() > 0 {
        lemma_all_well_played_shallower(s, moves.drop_last(), depth, d);
        lemma_well_played_shallower(child(s, moves.last()), depth, d);
    }
}

/// A state without an outcome but with a legal move, searched at least one
/// ply deep, has a best move when the contract holds and the heuristic
/// values stay inside the `i32` range.
pub proof fn lemma_best_move_exists<G: GameState>(s: G, depth: nat)
    requires
        s.outcome_spec() is None,
        s.legal_moves_spec().len() > 0,
        depth >= 1,
        well_played(s, depth),
        leaves_inside(s, depth),
    ensures
        best_move_spec(s, depth) is Some,
        s.legal_moves_spec().contains(best_move_spec(s, depth)->0),
        s.with_move_spec(best_move_spec(s, depth)->0) is Ok,
{
    let d = (depth - 1) as nat;
    let ms = s.legal_moves_spec();
    lemma_value_inside(s, depth);
    lemma_best_over_reached(s, ms, d);
    lemma_first_reaching_found(s, ms, d, best_over(s, ms, d));
    lemma_all_well_played(s, ms, d);
    let m = best_move_spec(s, depth)->0;
    let k = choose|k: int| 0 <= k < ms.len() && ms[k] == m;
    assert(s.with_move_spec(ms[k]) is Ok);
}

} // verus!
