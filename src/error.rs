use vstd::prelude::*;

verus! {

/// The ways an operation of the protocol can fail.
#[derive(Debug, Clone, Copy, PartialEq, Eq, Structural)]
pub enum AuthError {
    /// No credential is registered under the user identifier.
    UserNotFound,
    /// No challenge was issued under the authentication identifier.
    SessionNotFound,
    /// The response does not satisfy the verification equations.
    VerificationFailed,
    /// A zero modulus, or a value that does not parse as a natural number.
    InvalidParameters,
}

} // verus!
