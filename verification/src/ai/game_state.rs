use vstd::prelude::*;
use crate::ai::outcome::Outcome;
use crate::ai::player::MinMaxPlayer;

verus! {

/// A two-player zero-sum game that the search can explore.
///
/// Each executable method is tied to a specification function of the same
/// meaning, which a verified implementation defines; the search is proved
/// against those. Their default bodies leave them unspecified, so that a
/// game written outside Verus can implement the trait; nothing is proved of
/// such a game. The search also expects, as the contract of this trait, that every
/// legal move can be applied (see `well_played`). A state without an outcome
/// should have a legal move; where one has none, the search scores it by its
/// heuristic, as a last resort.
pub trait GameState: Clone + Sized {
    /// The type of moves that can be played from this state.
    type Move: Clone + core::fmt::Debug + PartialEq;

    /// The error returned when an illegal move is applied.
    type MoveError: Clone + core::fmt::Debug;

    /// The player to move.
    open spec fn player_spec(&self) -> MinMaxPlayer {
        arbitrary()
    }

    /// The legal moves, in the order in which the search tries them.
    open spec fn legal_moves_spec(&self) -> Seq<Self::Move> {
        arbitrary()
    }

    /// The result of applying a move.
    open spec fn with_move_spec(&self, mv: Self::Move) -> Result<Self, Self::MoveError> {
        arbitrary()
    }

    /// The outcome, if the game is over.
    open spec fn outcome_spec(&self) -> Option<Outcome> {
        arbitrary()
    }

    /// The heuristic value of the state, from the point of view of `Max`.
    open spec fn evaluate_spec(&self) -> i32 {
        arbitrary()
    }

    /// Returns the player whose turn it is in this state.
    fn current_player(&self) -> (p: MinMaxPlayer)
        ensures
            p == self.player_spec(),
    ;

    /// Returns the list of legal moves from this position.
    fn legal_moves(&self) -> (moves: Vec<Self::Move>)
        ensures
            moves@ == self.legal_moves_spec(),
    ;

    /// Applies the given move, producing the next state, or an error if the
    /// move is illegal here.
    fn with_move(&self, mv: &Self::Move) -> (r: Result<Self, Self::MoveError>)
        ensures
            r == self.with_move_spec(*mv),
    ;

    /// Returns the outcome if the game is over, or `None` if play can continue.
    fn outcome(&self) -> (o: Option<Outcome>)
        ensures
            o == self.outcome_spec(),
    ;

    /// Returns a heuristic evaluation of this state from the perspective of
    /// `Max`: positive values are better for `Max`, negative ones for `Min`.
    fn evaluate(&self) -> (e: i32)
        ensures
            e == self.evaluate_spec(),
    ;
}

} // verus!
