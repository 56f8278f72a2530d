//! The conditions on which an operation fails.
use vstd::prelude::*;

verus! {

/// Why an operation was refused. Every refusal leaves the ledger as it was.
#[derive(Clone, Copy, Debug, PartialEq, Eq, Structural)]
pub enum GameError {
    /// The caller has no account.
    UnknownAccount,
    /// The amount asked for exceeds the account's balance.
    InsufficientBalance,
    /// The threshold of a roll lies outside `2..=96`.
    InvalidThreshold,
    /// A grouping of wheel numbers is not one of the table's groupings.
    InvalidCompositeBet,
    /// A stake, a payout or a balance does not fit in 128 bits.
    ArithmeticOverflow,
}

} // verus!
