use vstd::prelude::*;

verus! {

/// Why an operation aborted. Every error leaves the instance unchanged.
#[derive(Clone, Copy, Debug, PartialEq, Eq, Structural)]
pub enum TokenError {
    /// The instance was already initialized.
    AlreadyInitialized,
    /// A purchase of zero tokens.
    InvalidAmount,
    /// The caller is not the registered issuer.
    Unauthorized,
    /// The purchase exceeds the remaining supply.
    InsufficientSupply,
    /// No token was minted under the requested id.
    TokenNotFound,
    /// A required singleton, such as the issuer address, was never stored.
    NotInitialized,
}

} // verus!
