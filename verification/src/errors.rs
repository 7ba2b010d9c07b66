use vstd::prelude::*;

verus! {

/// The typed failures an operation can report. Every check runs before any
/// mutation, so an error always leaves the ledger exactly as it was.
#[derive(PartialEq, Eq, Structural, Clone, Copy, Debug)]
pub enum TokenError {
    /// The caller identity does not match the required authority or owner.
    Unauthorized,
    /// A transfer asked for more than the sender's balance.
    InsufficientFunds,
    /// The sender's freeze flag is set.
    AccountFrozen,
    /// A transfer or issuance crossed two different token types.
    MintMismatch,
    /// Balance or counter arithmetic would wrap above the type's maximum.
    Overflow,
    /// Balance or counter arithmetic would wrap below zero. No current
    /// operation reports it: the only debit path is guarded by
    /// `InsufficientFunds` first.
    Underflow,
    /// A metadata name longer than the 32-byte bound.
    InvalidName,
    /// A metadata symbol longer than the 10-byte bound.
    InvalidSymbol,
    /// An attempt to close a holder account that still has a balance.
    NonZeroBalance,
    /// A referenced record does not exist in the store.
    NotFound,
}

} // verus!
