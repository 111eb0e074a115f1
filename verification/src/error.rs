//! The ways an operation of the protocol can fail.

use vstd::prelude::*;

verus! {

/// Why an operation did not succeed.
#[derive(Clone, Copy, Debug, PartialEq, Eq, Structural)]
pub enum AuthError {
    /// The user or the challenge that the caller named is not known.
    NotFound,
    /// The response does not satisfy the verifier's equations.
    InvalidProof,
    /// The operating system's random source is not available, or what it gave
    /// could not be used. The operation was abandoned and changed nothing.
    InternalRandomnessFailure,
}

} // verus!
