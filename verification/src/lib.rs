//! A staking ledger: per-account principal, time-weighted reward at a mutable
//! annual rate, and two-phase bookkeeping of the outbound token transfers that
//! withdrawals and reward payouts ask for.
//!
//! - [`accrual`]: the stake record and the reward it has earned;
//! - [`governance`]: votes on an account's rate;
//! - [`store`]: the records, by account;
//! - [`transfer`]: the transfers in flight, by handle;
//! - [`ledger`]: the ledger as a state machine over plain values, with the
//!   laws that hold of every run;
//! - [`contract`]: the ledger itself, [`Contract`].
//!
//! Every operation takes the current time and the acting account as plain
//! values and returns either its result or a [`LedgerError`]; an operation
//! that is refused changes nothing. Nothing here reads a clock, storage or the
//! network: a transfer that an operation asks for is handed back to the
//! caller, who sends it and reports how it went.

pub mod accrual;
pub mod contract;
pub mod error;
pub mod governance;
pub mod ledger;
pub mod store;
pub mod transfer;

pub use crate::accrual::StakeInfo;
pub use crate::accrual::APR_SCALE;
pub use crate::accrual::DEFAULT_APR;
pub use crate::accrual::SECONDS_PER_YEAR;
pub use crate::contract::Contract;
pub use crate::error::LedgerError;
pub use crate::governance::Vote;
pub use crate::governance::RATE_UNIT;
pub use crate::ledger::LedgerOp;
pub use crate::ledger::LedgerView;
pub use crate::ledger::TransferOutcome;
pub use crate::store::StakeStore;
pub use crate::store::StorageKey;
pub use crate::store::RecordsView;
pub use crate::transfer::AdapterView;
pub use crate::transfer::PendingTransfer;
pub use crate::transfer::PendingView;
pub use crate::transfer::TransferAdapter;
pub use crate::transfer::TransferKind;
