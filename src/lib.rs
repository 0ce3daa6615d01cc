//! Detection of sandwich attacks in decentralized-exchange swap records.
//!
//! A sandwich is a front-run and a back-run by one actor around a victim's
//! trade in the same block. Two detectors are offered: a heuristic one that
//! matches the pattern and scores it ([`heuristics`]), and one that confirms
//! each candidate by replaying its block against constant-product pools
//! ([`simulation`]).
//!
//! Quantities are integers: token amounts and pool reserves are in the
//! token's base units, USD values are in micro-dollars, and scores are
//! fixed-point numbers where [`fixed::SCALE`] stands for 1.0.
use vstd::prelude::*;

pub mod fixed;
pub mod tokens;
pub mod transactions;
pub mod pattern;
pub mod scoring;
pub mod heuristics;
pub mod pool;
pub mod simulation;

pub use heuristics::{
    detect_by_heuristics, find_same_block_sandwiches, find_sandwiches, find_sandwiches_in_block,
    DetectionIssue, HeuristicReport, SandwichAttack,
};
pub use pattern::{are_tokens_reversed, find_sandwich_triples, is_sandwich_pattern, DetectionPolicy};
pub use pool::{Fraction, Pool, SwapSimulationResult};
pub use scoring::{
    calculate_sandwich_confidence, calculate_victim_price_impact, is_proportional_sandwich,
    ConfidenceFlags, ScoringVariant,
};
pub use simulation::{
    find_sandwich_attacks_by_simulation, SandwichAttackBySimulation, SimulationError, SimulationReport,
};
pub use tokens::{are_tokens_equivalent, get_token_equivalence_group, TokenClass};
pub use transactions::{group_transactions_by_block, BlockTransactions, SwapTransaction};

verus! {

} // verus!
