//! The result of one player in one round.

use vstd::prelude::*;

verus! {

/// What one player got out of one round: the points that were left in the
/// hand, and whether the player's current phase was completed.
///
/// A round is a plain value. Once it is part of a player's history nothing
/// hands out a mutable reference to it.
#[derive(Clone, Copy, Debug, PartialEq, Eq, Structural)]
pub struct Round {
    pub score: usize,
    pub phased_up: bool,
}

impl Round {
    /// A round with the given score and phase result, both kept as they are.
    pub fn new(score: usize, phased_up: bool) -> (round: Self)
        ensures
            round.score == score,
            round.phased_up == phased_up,
    {
        Self { score, phased_up }
    }

    /// Whether the player went out in this round, that is, scored nothing.
    pub open spec fn went_out(&self) -> bool {
        self.score == 0
    }

    /// Whether the player went out in this round, that is, scored nothing.
    #[verifier::when_used_as_spec(went_out)]
    pub fn won(&self) -> (won: bool)
        ensures
            won == (self.score == 0),
    {
        self.score == 0
    }
}

} // verus!
