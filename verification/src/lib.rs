//! Round-robin tournament scheduling, verified.
//!
//! Given a number of players, [`round_robin_tournament::draw`] returns the full
//! sequence of rounds of a round-robin tournament: every player meets every
//! other player exactly once, and within each round every player appears in
//! exactly one match. An odd player count is rounded up by one synthetic
//! player; whoever is paired against the highest identifier has a bye that
//! round.
//!
//! The module [`model`] holds the mathematical description of the schedule
//! that the contracts speak of, and [`laws`] proves the scheduling invariants
//! over that description.

pub mod laws;
pub mod model;
pub mod round_robin_tournament;
