//! Threshold-gated shared ownership: a group of owners collectively approves
//! proposed calls, which execute only once the approval tally for a call's
//! fingerprint reaches the configured threshold.

pub mod contract;
pub mod digest;
pub mod errors;
pub mod ledger;
pub mod sorting;
pub mod state;
pub mod text;

use vstd::prelude::*;

verus! {

/// An opaque, comparable, orderable principal identifier supplied by the
/// hosting environment.
pub type OwnerId = u64;

} // verus!
