//! The error taxonomy of the library.
//!
//! Every validation failure is detected before any state is mutated, so a
//! returned error always leaves the registry and the ledger unchanged.

use vstd::prelude::*;

verus! {

/// Why a mutating operation was refused.
#[derive(Clone, Copy, Debug, PartialEq, Eq, Structural)]
pub enum MultiOwnableError {
    /// The caller is not a current owner.
    AuthorizationError,
    /// A proposed owner set is empty, a threshold is below one, or the owner
    /// count exceeds the threshold.
    InvalidArguments,
    /// The call identifier names no recognized business call.
    UnrecognizedCallError,
    /// A payload could not be parsed when a call was due to execute.
    SerializationError,
}

} // verus!
