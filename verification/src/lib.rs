//! Replacement-worker selection for a single shift.
//!
//! A shift states a role, a set of skills and a start time; a pool of workers
//! states who could cover it. The crate decides which workers are eligible,
//! scores the eligible ones, and picks either the first qualified worker
//! (greedy assignment) or the best-scoring eligible one (rebalance).
//!
//! Every decision is stated over the mathematical views in [`model`], so the
//! executable functions are tied to open `spec` functions that a caller can
//! reason about.

pub mod eligibility;
pub mod greedy;
pub mod model;
pub mod rebalance;
pub mod scoring;
pub mod service;
pub mod start;
pub mod window;

pub use eligibility::{is_eligible, is_qualified};
pub use greedy::{assign_shift, assign_shift_at, first_qualified};
pub use model::{ShiftInput, ShiftOutput, ShiftStart, Worker};
pub use rebalance::{
    best_candidate, rank_candidates, rebalance_shift, rebalance_shift_at, Candidate,
};
pub use scoring::calculate_happiness;
pub use service::{ServiceError, ShiftPlannerService};
pub use start::resolve_start;
pub use vstd::hash_map::StringHashMap;
pub use window::parse_window;
