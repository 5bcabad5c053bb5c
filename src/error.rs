use vstd::prelude::*;

verus! {

/// Why an operation on the swap was refused. Every refusal leaves the state
/// exactly as it was.
#[derive(Clone, Copy, Debug, PartialEq, Eq, Structural)]
pub enum SwapError {
    /// The party that pays does not hold enough of the asset.
    InsufficientFunds,
    /// The maker already has an open offer under this identifier.
    OfferAlreadyExists,
    /// No open offer exists under this maker and identifier.
    OfferNotFound,
    /// The party whose funds would move did not sign.
    Unauthorized,
    /// An amount that must be positive was zero.
    InvalidAmount,
    /// A balance would exceed the largest amount an account can hold.
    ArithmeticOverflow,
}

} // verus!
