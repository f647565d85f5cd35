//! The reasons for which a ledger operation is refused.

use vstd::prelude::*;

verus! {

/// Why an operation was refused. A refused operation leaves the ledger as it
/// found it.
#[derive(Clone, Copy, PartialEq, Eq, Debug, Structural)]
pub enum LedgerError {
    /// The amount is zero.
    InvalidAmount,
    /// The account has no stake record.
    NoStake,
    /// A withdrawal asks for more than the account's principal.
    InsufficientStake,
    /// A claim finds no reward to pay.
    NoReward,
    /// A vote would take the account's rate below zero.
    RateFloorExceeded,
    /// A reward, balance, clock or counter computation leaves its integer
    /// range.
    ArithmeticOverflow,
    /// The caller is not the one the operation is reserved for.
    UnauthorizedCaller,
}

impl LedgerError {
    /// The text of [`LedgerError::message`].
    pub open spec fn reason(self) -> Seq<char> {
        match self {
            LedgerError::InvalidAmount => "Stake: Invalid amount!"@,
            LedgerError::NoStake => "Stake: You didn't stake any tokens!"@,
            LedgerError::InsufficientStake => "Stake: You staked less token than amount"@,
            LedgerError::NoReward => "Stake: You have no reward yet!"@,
            LedgerError::RateFloorExceeded => "Stake: Vote would take the rate below zero"@,
            LedgerError::ArithmeticOverflow => "Stake: Arithmetic overflow"@,
            LedgerError::UnauthorizedCaller => "Stake: Caller is not authorized"@,
        }
    }

    /// The reason string with which a host aborts the call.
    pub fn message(&self) -> (s: &'static str)
        ensures
            s@ == self.reason(),
    {
        match self {
            LedgerError::InvalidAmount => "Stake: Invalid amount!",
            LedgerError::NoStake => "Stake: You didn't stake any tokens!",
            LedgerError::InsufficientStake => "Stake: You staked less token than amount",
            LedgerError::NoReward => "Stake: You have no reward yet!",
            LedgerError::RateFloorExceeded => "Stake: Vote would take the rate below zero",
            LedgerError::ArithmeticOverflow => "Stake: Arithmetic overflow",
            LedgerError::UnauthorizedCaller => "Stake: Caller is not authorized",
        }
    }
}

} // verus!
