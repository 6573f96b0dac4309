//! Core logic for an anonymized confession service: per-submitter cooldown
//! gating, blacklist classification, a pending-review queue, and the
//! pseudonymous audit mechanism. Platform delivery and persistence live
//! outside this crate; the core only decides.

use vstd::prelude::*;

pub mod anonymize;
pub mod assoc;
pub mod audit;
pub mod blacklist;
pub mod config;
pub mod laws;
pub mod pipeline;
pub mod stats;
pub mod text;
pub mod utils;

verus! {

/// Default cooldown between submissions, in seconds, applied to a community
/// that has not configured its own value.
pub const DEFAULT_COOLDOWN_SECONDS: u64 = 3600;

} // verus!
