use vstd::prelude::*;

verus! {

/// Every way an invocation against the factory or a share ledger can fail.
/// Each error aborts the whole invocation: no operation of this crate leaves
/// state partially updated when it returns one of these.
#[derive(Clone, Copy, Debug, PartialEq, Eq, Structural)]
pub enum Error {
    /// `initialize` was called on a factory that is already initialized.
    AlreadyInitialized,
    /// `create_pair` was called on a factory that was never initialized.
    NotInitialized,
    /// `create_pair` was called with the same asset handle on both sides.
    IdenticalAssets,
    /// `create_pair` was called for an unordered asset pair that already has
    /// a registry entry.
    PairAlreadyExists,
    /// `get_pair` found no registry entry for the asset pair.
    NotFound,
    /// A governance mutation was not authorized by the current fee setter
    /// for exactly this invocation.
    Unauthorized,
    /// A debit would take a holder below a zero balance.
    InsufficientBalance,
    /// A transfer on behalf of an owner asked for more than the spender's
    /// remaining allowance.
    InsufficientAllowance,
}

} // verus!
