//! Core data structures and verified logic for an intent network.
//!
//! The crate provides the intent language (declarative goals with hard
//! constraints, soft preferences and an expiration), per-agent reputation
//! scoring, a constraint evaluator that decides whether a candidate
//! execution plan is admissible for an intent, an agent registry, and a
//! deterministic reputation-weighted matching engine that assigns at most
//! one agent to each intent in a round.
//!
//! All fractional quantities are held in fixed point: a value of
//! [`SCALE`] micro-units stands for 1.0.

use vstd::prelude::*;

pub mod agent;
pub mod dsl;
pub mod evaluator;
pub mod matching;
pub mod registry;

verus! {

/// Number of micro-units that stand for the value 1.0.
///
/// Ratios such as accuracy or a drawdown bound of 5% are stored as
/// `SCALE`-scaled integers (50_000 micro-units for 5%).
pub const SCALE: u64 = 1_000_000;

/// Largest admitted value, in micro-units, for the open-ended reputation
/// metrics (gas efficiency, proof time, stake): one million whole units.
/// The bound keeps every step of the score arithmetic inside `u64`.
pub const MAX_METRIC: u64 = 1_000_000_000_000;

/// Upper bound on a reputation score, in micro-units. Any score computed
/// from metrics within [`MAX_METRIC`] stays below this bound.
pub const MAX_SCORE: u64 = 1_000_000_000_000;

/// Largest admitted number of constraints or preferences on one intent.
/// Intents beyond this size are rejected at construction; the bound keeps
/// the preference-score arithmetic inside `u64`.
pub const MAX_RULES: usize = 1000;

} // verus!
