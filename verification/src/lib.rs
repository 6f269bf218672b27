//! Score keeping for phase-based card games.
//!
//! Every player has to complete a fixed number of phases, one after the
//! other. A round gives each player a score and possibly the next phase; the
//! game ends as soon as somebody has completed the last phase, and of those
//! who have, the lowest total score wins.

pub mod decimal;
pub mod error;
pub mod game;
pub mod input;
pub mod player;
pub mod round;
pub mod standings;
