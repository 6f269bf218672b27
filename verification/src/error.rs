//! What the score keeping refuses.

use vstd::prelude::*;

verus! {

/// Why a player could not be made, or a round not be found.
#[derive(Clone, Copy, Debug, PartialEq, Eq, Structural)]
pub enum ScoreError {
    /// A player's name was empty.
    InvalidName,
    /// A round was asked for that the player has not played: `index` is not
    /// below `len`, the number of rounds on record.
    RoundOutOfRange { index: usize, len: usize },
}

} // verus!
