//! Federated multi-module full-text search coordination.
//!
//! A registry of independently loaded index modules, a weighted fan-out
//! query plan, and a deterministic merge of per-module ranked result lists
//! into a single ranked, deduplicated, limit-bounded answer.  The full-text
//! engine itself (tokenization, scoring, on-disk segments) is an external
//! collaborator: callers execute the planned per-module queries and hand
//! the raw hits back for weighting and merging.

use vstd::prelude::*;

pub mod analysis;
pub mod coordinator;
pub mod errors;
pub mod item;
pub mod merge;
pub mod order;
pub mod registry;
pub mod stats;
pub mod terms;

verus! {

/// Scores and weights are fixed-point values counted in thousandths, so a
/// weight of one thousand leaves a raw score unchanged.
pub const WEIGHT_SCALE: u64 = 1000;

/// Result limit applied when a request does not choose one.
pub const DEFAULT_LIMIT: usize = 20;

} // verus!
