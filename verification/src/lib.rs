//! Probability engine for a hidden-card-deck deduction game.
//!
//! The library tracks the publicly inferable state of a 17-card draw pile
//! (6 liberal and 11 fascist cards), advances it one round at a time from
//! claimed three-card draws and single-card topdecks, and computes exact
//! hypergeometric probabilities for every claim.  All probabilities are
//! exact rationals (`Prob`), so every distribution identity is proved
//! rather than approximated.

pub mod cards;
pub mod combinatorics;
pub mod deck;
pub mod game;
pub mod logging;
pub mod prob;
pub mod stats;

pub use cards::{Card, CompClass, Draw};
pub use combinatorics::{m_choose, m_pick};
pub use deck::Deck;
pub use game::{do_claim_round, do_topdeck, GameState, Round};
pub use logging::{log_s, Log};
pub use prob::Prob;
pub use stats::{compute_stats, Stats};
