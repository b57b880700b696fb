//! The failures that the operations of this crate report to their callers.

use vstd::prelude::*;

verus! {

/// Why an operation refused its arguments. An operation that returns one of
/// these has changed nothing.
#[derive(Clone, Copy, Debug, PartialEq, Eq, Structural)]
pub enum CryptoError {
    /// The security parameter is not one that the operation supports.
    InvalidSecurityParameter,
    /// A point that was handed in does not satisfy the equation of its curve.
    PointOffCurve,
}

} // verus!
