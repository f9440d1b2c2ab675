use vstd::prelude::*;

verus! {

/// The errors a ledger call can end in. Each call either succeeds in full or
/// returns exactly one of these; no partial effect survives a failing call.
#[derive(Clone, Copy, Debug, PartialEq, Eq, Structural)]
pub enum ContractError {
    /// A mutation was attempted by an identity other than the stored owner.
    Unauthorized,
    /// An address string was rejected by the host's format validation.
    InvalidAddress,
    /// A score key was never written, or the owner was read before
    /// initialization.
    NotFound,
}

} // verus!
