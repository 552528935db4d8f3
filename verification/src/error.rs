//! The ways in which a call can be rejected.

use vstd::prelude::*;

verus! {

/// A contract violation by the caller. Nothing is retried and no partial
/// result is handed out.
#[derive(Clone, Copy, Debug, PartialEq, Eq, Structural)]
pub enum FingerprintError {
    /// A sequence of keys and values has odd length.
    InvalidArity,
    /// A null value reached an operation that accepts none.
    NullValue,
}

} // verus!
