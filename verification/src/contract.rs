//! The stake ledger itself: the operations of [`crate::ledger::LedgerView`],
//! carried out on the record store and the transfer adapter.

use vstd::prelude::*;
use crate::accrual::StakeInfo;
use crate::error::LedgerError;
use crate::governance::Vote;
use crate::ledger::lemma_claim_keeps_invariant;
use crate::ledger::lemma_deposit_keeps_invariant;
use crate::ledger::lemma_reinstating_keeps_invariant;
use crate::ledger::lemma_resolution_keeps_invariant;
use crate::ledger::lemma_vote_keeps_invariant;
use crate::ledger::lemma_withdraw_keeps_invariant;
use crate::ledger::LedgerView;
use crate::ledger::TransferOutcome;
use crate::store::lemma_record_within_total;
use crate::store::StakeStore;
use crate::transfer::distinct_handles;
use crate::transfer::intent_view;
use crate::transfer::pending_by_handle;
use crate::transfer::PendingTransfer;
use crate::transfer::TransferAdapter;
use crate::transfer::TransferKind;

verus! {

/// Nanoseconds in a second.
pub const NANOS_PER_SECOND: u64 = 1_000_000_000;

struct LedgerParts {
    token_address: String,
    total_stakers: u128,
    total_staked: u128,
    store: StakeStore,
    transfers: TransferAdapter,
}

impl LedgerParts {
    spec fn view(self) -> LedgerView {
        LedgerView {
            token_address: self.token_address@,
            total_stakers: self.total_stakers,
            total_staked: self.total_staked,
            store: self.store@,
            transfers: self.transfers@,
        }
    }

    fn blank() -> (parts: LedgerParts)
        ensures
            parts.view() == LedgerView::initial(Seq::<char>::empty()),
            parts.view().wf(),
    {
        LedgerParts {
            token_address: String::new(),
            total_stakers: 0,
            total_staked: 0,
            store: StakeStore::new(),
            transfers: TransferAdapter::new(0),
        }
    }
}

/// The stake ledger. Whatever is done to it, `total_staked` stays the sum of
/// the principal of all records.
pub struct Contract {
    parts: LedgerParts,
}

impl View for Contract {
    type V = LedgerView;

    closed spec fn view(&self) -> LedgerView {
        self.parts.view()
    }
}

impl Contract {
    #[verifier::type_invariant]
    spec fn inv(self) -> bool {
        self.parts.view().wf()
    }

    /// A ledger without records that transacts with the token ledger
    /// `token_address`.
    pub fn new(token_address: &str) -> (ledger: Contract)
        ensures
            ledger@ == LedgerView::initial(token_address@),
            ledger@.wf(),
    {
        Contract {
            parts: LedgerParts {
                token_address: token_address.to_owned(),
                total_stakers: 0,
                total_staked: 0,
                store: StakeStore::new(),
                transfers: TransferAdapter::new(0),
            },
        }
    }

    /// A ledger without records that goes on giving out transfer handles
    /// from `next_handle`: the start of a ledger that is rebuilt, record by
    /// record, from what a host has kept of it.
    pub fn resume(token_address: &str, next_handle: u64) -> (ledger: Contract)
        ensures
            ledger@ == LedgerView::resumed(token_address@, next_handle),
            ledger@.wf(),
    {
        Contract {
            parts: LedgerParts {
                token_address: token_address.to_owned(),
                total_stakers: 0,
                total_staked: 0,
                store: StakeStore::new(),
                transfers: TransferAdapter::new(next_handle),
            },
        }
    }

    /// Takes in `record` as the record of `account`, counting the account as
    /// a staker and its principal in the total. Answers whether it did: an
    /// account that has a record already, or a principal for which the total
    /// has no room, is not taken in.
    pub fn reinstate_record(&mut self, account: &str, record: StakeInfo) -> (taken: bool)
        ensures
            taken == old(self)@.admits_record(account@, record),
            taken ==> final(self)@ == old(self)@.with_reinstated_record(account@, record),
            !taken ==> final(self)@ == old(self)@,
            final(self)@.wf(),
    {
        proof {
            use_type_invariant(&*self);
        }
        if self.parts.store.contains(account) {
            return false;
        }
        let total_staked: u128 = match self.parts.total_staked.checked_add(record.amount_staked) {
            Some(total) => total,
            None => {
                return false;
            },
        };
        let holders: usize = self.parts.store.len();
        proof {
            lemma_reinstating_keeps_invariant(
                self@,
                account@,
                record,
                self@.transfers.next_intent(account@, 0, TransferKind::Withdrawal),
            );
        }
        let mut parts = LedgerParts::blank();
        std::mem::swap(&mut parts, &mut self.parts);
        parts.store.put(account, record);
        parts.total_staked = total_staked;
        parts.total_stakers = holders as u128 + 1;
        self.parts = parts;
        true
    }

    /// Takes in `intent` as a transfer in flight. Answers whether it did:
    /// only a transfer that pays an account with a record, under a handle
    /// that was given out and is not in use, is taken in.
    pub fn reinstate_transfer(&mut self, intent: PendingTransfer) -> (taken: bool)
        ensures
            taken == old(self)@.admits_transfer(intent@),
            taken ==> final(self)@ == old(self)@.with_reinstated_transfer(intent@),
            !taken ==> final(self)@ == old(self)@,
            final(self)@.wf(),
    {
        proof {
            use_type_invariant(&*self);
        }
        if !self.parts.store.contains(intent.account.as_str()) {
            return false;
        }
        if intent.handle >= self.parts.transfers.next_handle() {
            return false;
        }
        if let Some(_) = self.parts.transfers.pending(intent.handle) {
            return false;
        }
        proof {
            lemma_reinstating_keeps_invariant(
                self@,
                intent@.account,
                StakeInfo::opened(0, 0),
                intent@,
            );
        }
        let mut parts = LedgerParts::blank();
        std::mem::swap(&mut parts, &mut self.parts);
        let _ = parts.transfers.reinstate(intent);
        self.parts = parts;
        true
    }

    /// The accounts that have a record, in the order of their first stake.
    pub fn stakers(&self) -> (accounts: Vec<String>)
        ensures
            accounts@.len() == self@.store.stakers.len(),
            forall|i: int| 0 <= i < accounts@.len() ==> accounts@[i]@ == self@.store.stakers[i],
            self@.wf(),
    {
        proof {
            use_type_invariant(self);
        }
        self.parts.store.stakers()
    }

    /// Copies of the transfers in flight.
    pub fn pending_transfers(&self) -> (list: Vec<PendingTransfer>)
        ensures
            distinct_handles(list@),
            pending_by_handle(list@) == self@.transfers.pending,
            self@.wf(),
    {
        proof {
            use_type_invariant(self);
        }
        self.parts.transfers.pending_transfers()
    }

    /// The handle that the next transfer gets.
    pub fn next_handle(&self) -> (handle: u64)
        ensures
            handle == self@.transfers.next_handle,
            self@.wf(),
    {
        proof {
            use_type_invariant(self);
        }
        self.parts.transfers.next_handle()
    }

    /// The ledger's time, in whole seconds, for a host clock that counts
    /// nanoseconds.
    pub fn now(block_timestamp: u64) -> (seconds: u64)
        ensures
            seconds == block_timestamp / NANOS_PER_SECOND,
    {
        block_timestamp / NANOS_PER_SECOND
    }

    /// The token ledger that this ledger transacts with.
    pub fn token_address(&self) -> (address: String)
        ensures
            address@ == self@.token_address,
            self@.wf(),
    {
        proof {
            use_type_invariant(self);
        }
        self.parts.token_address.clone()
    }

    /// The number of accounts that have ever staked.
    pub fn total_stakers(&self) -> (count: u128)
        ensures
            count == self@.total_stakers,
            self@.wf(),
    {
        proof {
            use_type_invariant(self);
        }
        self.parts.total_stakers
    }

    /// The principal under management: the sum of `amount_staked` over all
    /// records.
    pub fn total_staked(&self) -> (total: u128)
        ensures
            total == self@.total_staked,
            total == self@.store.total_staked(),
            self@.wf(),
    {
        proof {
            use_type_invariant(self);
        }
        self.parts.total_staked
    }

    /// A copy of the record of `account`, if it has one.
    pub fn record(&self, account: &str) -> (record: Option<StakeInfo>)
        ensures
            record == self@.store.get(account@),
            self@.wf(),
    {
        proof {
            use_type_invariant(self);
        }
        self.parts.store.get(account)
    }

    /// Stakes `amount` for `account` at `now`. The first deposit of an account
    /// opens its record and counts it as a staker; a later one settles the
    /// record and adds to its principal.
    ///
    /// Fails with `InvalidAmount` for a zero amount and with
    /// `ArithmeticOverflow` where the reward owed cannot be computed or a
    /// total would leave its type.
    pub fn deposit(&mut self, account: &str, amount: u128, now: u64) -> (r: Result<
        (),
        LedgerError,
    >)
        ensures
            r == old(self)@.deposit_outcome(account@, amount, now),
            r is Ok ==> final(self)@ == old(self)@.deposited(account@, amount, now),
            r is Err ==> final(self)@ == old(self)@,
            final(self)@.wf(),
    {
        proof {
            use_type_invariant(&*self);
        }
        if amount == 0 {
            return Err(LedgerError::InvalidAmount);
        }
        let total_staked: u128 = match self.parts.total_staked.checked_add(amount) {
            Some(total) => total,
            None => {
                return Err(LedgerError::ArithmeticOverflow);
            },
        };
        let holders: usize = self.parts.store.len();
        let (record, total_stakers): (StakeInfo, u128) = match self.parts.store.get(account) {
            Some(existing) => {
                let settled = match existing.settle(now) {
                    Ok(settled) => settled,
                    Err(e) => {
                        return Err(e);
                    },
                };
                proof {
                    lemma_record_within_total(self@.store, account@);
                }
                (
                    StakeInfo {
                        time_settled: settled.time_settled,
                        amount_staked: settled.amount_staked + amount,
                        settled_reward: settled.settled_reward,
                        apr: settled.apr,
                        votes: settled.votes,
                    },
                    self.parts.total_stakers,
                )
            },
            None => (StakeInfo::open(amount, now), holders as u128 + 1),
        };
        proof {
            lemma_deposit_keeps_invariant(self@, account@, amount, now);
        }
        let mut parts = LedgerParts::blank();
        std::mem::swap(&mut parts, &mut self.parts);
        parts.store.put(account, record);
        parts.total_staked = total_staked;
        parts.total_stakers = total_stakers;
        self.parts = parts;
        Ok(())
    }

    /// Takes the token ledger's notice that `amount` arrived from `sender_id`
    /// and stakes it. Only the token ledger itself may give that notice:
    /// from any other `caller` it fails with `UnauthorizedCaller`. Otherwise
    /// it does what [`Contract::deposit`] does and answers how much of the
    /// amount is handed back, which is nothing. The message is not read.
    pub fn ft_on_transfer(
        &mut self,
        caller: &str,
        sender_id: &str,
        amount: u128,
        _msg: &str,
        now: u64,
    ) -> (r: Result<u128, LedgerError>)
        ensures
            r == old(self)@.notification_outcome(caller@, sender_id@, amount, now),
            r is Ok ==> final(self)@ == old(self)@.deposited(sender_id@, amount, now),
            r is Err ==> final(self)@ == old(self)@,
            final(self)@.wf(),
    {
        proof {
            use_type_invariant(&*self);
        }
        let caller_id: String = caller.to_owned();
        if !(caller_id == self.parts.token_address) {
            return Err(LedgerError::UnauthorizedCaller);
        }
        match self.deposit(sender_id, amount, now) {
            Ok(()) => Ok(0),
            Err(e) => Err(e),
        }
    }

    /// Withdraws `amount` of the principal of `account` at `now`: settles the
    /// record, debits principal and total, and files the transfer that pays
    /// the account, which it returns for the caller to send.
    ///
    /// Fails with `NoStake` without a record, `InvalidAmount` for a zero
    /// amount, `InsufficientStake` for more than the principal, and
    /// `ArithmeticOverflow` where the reward owed cannot be computed or the
    /// transfer handles are used up.
    pub fn unstake_token(&mut self, account: &str, amount: u128, now: u64) -> (r: Result<
        PendingTransfer,
        LedgerError,
    >)
        ensures
            intent_view(r) == old(self)@.withdraw_outcome(account@, amount, now),
            r is Ok ==> final(self)@ == old(self)@.withdrawn(account@, amount, now),
            r is Err ==> final(self)@ == old(self)@,
            final(self)@.wf(),
    {
        proof {
            use_type_invariant(&*self);
        }
        let existing: StakeInfo = match self.parts.store.get(account) {
            Some(existing) => existing,
            None => {
                return Err(LedgerError::NoStake);
            },
        };
        if amount == 0 {
            return Err(LedgerError::InvalidAmount);
        }
        if amount > existing.amount_staked {
            return Err(LedgerError::InsufficientStake);
        }
        let settled = match existing.settle(now) {
            Ok(settled) => settled,
            Err(e) => {
                return Err(e);
            },
        };
        let handle: u64 = self.parts.transfers.next_handle();
        if handle == u64::MAX {
            return Err(LedgerError::ArithmeticOverflow);
        }
        proof {
            lemma_record_within_total(self@.store, account@);
            lemma_withdraw_keeps_invariant(self@, account@, amount, now);
        }
        let record = StakeInfo {
            time_settled: settled.time_settled,
            amount_staked: settled.amount_staked - amount,
            settled_reward: settled.settled_reward,
            apr: settled.apr,
            votes: settled.votes,
        };
        let mut parts = LedgerParts::blank();
        std::mem::swap(&mut parts, &mut self.parts);
        parts.store.put(account, record);
        parts.total_staked = parts.total_staked - amount;
        let _ = parts.transfers.request_transfer(account, amount, TransferKind::Withdrawal);
        self.parts = parts;
        Ok(
            PendingTransfer {
                handle,
                account: account.to_owned(),
                amount,
                kind: TransferKind::Withdrawal,
            },
        )
    }

    /// Claims the reward owed to `account` at `now`: zeroes the settled
    /// reward, moves the settlement time to `now`, and files the transfer of
    /// the whole reward, which it returns for the caller to send.
    ///
    /// Fails with `NoStake` without a record, `NoReward` where nothing is
    /// owed, and `ArithmeticOverflow` where the reward owed cannot be computed
    /// or the transfer handles are used up.
    pub fn claim_reward(&mut self, account: &str, now: u64) -> (r: Result<
        PendingTransfer,
        LedgerError,
    >)
        ensures
            intent_view(r) == old(self)@.claim_outcome(account@, now),
            r is Ok ==> final(self)@ == old(self)@.claimed(account@, now),
            r is Err ==> final(self)@ == old(self)@,
            final(self)@.wf(),
    {
        proof {
            use_type_invariant(&*self);
        }
        let existing: StakeInfo = match self.parts.store.get(account) {
            Some(existing) => existing,
            None => {
                return Err(LedgerError::NoStake);
            },
        };
        let reward: u128 = match existing.pending_reward(now) {
            Ok(reward) => reward,
            Err(e) => {
                return Err(e);
            },
        };
        if reward == 0 {
            return Err(LedgerError::NoReward);
        }
        let handle: u64 = self.parts.transfers.next_handle();
        if handle == u64::MAX {
            return Err(LedgerError::ArithmeticOverflow);
        }
        proof {
            lemma_claim_keeps_invariant(self@, account@, now);
        }
        let record = StakeInfo {
            time_settled: now,
            amount_staked: existing.amount_staked,
            settled_reward: 0,
            apr: existing.apr,
            votes: existing.votes,
        };
        let mut parts = LedgerParts::blank();
        std::mem::swap(&mut parts, &mut self.parts);
        parts.store.put(account, record);
        let _ = parts.transfers.request_transfer(account, reward, TransferKind::RewardPayout);
        self.parts = parts;
        Ok(
            PendingTransfer {
                handle,
                account: account.to_owned(),
                amount: reward,
                kind: TransferKind::RewardPayout,
            },
        )
    }

    /// The reward owed to `account` at `now`; changes nothing.
    ///
    /// Fails with `NoStake` without a record and with `ArithmeticOverflow`
    /// where the reward cannot be computed.
    pub fn pending_reward(&self, account: &str, now: u64) -> (r: Result<u128, LedgerError>)
        ensures
            r == self@.reward_outcome(account@, now),
            self@.wf(),
    {
        proof {
            use_type_invariant(self);
        }
        match self.parts.store.get(account) {
            Some(existing) => existing.pending_reward(now),
            None => Err(LedgerError::NoStake),
        }
    }

    /// The principal of `account`; changes nothing. Fails with `NoStake`
    /// without a record.
    pub fn get_staked_amount(&self, account: &str) -> (r: Result<u128, LedgerError>)
        ensures
            r == self@.staked_outcome(account@),
            self@.wf(),
    {
        proof {
            use_type_invariant(self);
        }
        match self.parts.store.get(account) {
            Some(existing) => Ok(existing.amount_staked),
            None => Err(LedgerError::NoStake),
        }
    }

    /// Applies `vote` to the rate of `account` at `now`: settles the record
    /// at the old rate, then moves rate and vote counter.
    ///
    /// Fails with `NoStake` without a record, with `RateFloorExceeded` where
    /// the rate would fall below zero, and with `ArithmeticOverflow` where the
    /// reward owed cannot be computed or rate or counter would leave its type.
    pub fn update_apr(&mut self, account: &str, vote: Vote, now: u64) -> (r: Result<
        (),
        LedgerError,
    >)
        ensures
            r == old(self)@.vote_outcome(account@, vote, now),
            r is Ok ==> final(self)@ == old(self)@.voted(account@, vote, now),
            r is Err ==> final(self)@ == old(self)@,
            final(self)@.wf(),
    {
        proof {
            use_type_invariant(&*self);
        }
        let existing: StakeInfo = match self.parts.store.get(account) {
            Some(existing) => existing,
            None => {
                return Err(LedgerError::NoStake);
            },
        };
        let moved = match existing.apply_vote(vote) {
            Ok(moved) => moved,
            Err(e) => {
                return Err(e);
            },
        };
        let settled = match existing.settle(now) {
            Ok(settled) => settled,
            Err(e) => {
                return Err(e);
            },
        };
        let record = StakeInfo {
            time_settled: settled.time_settled,
            amount_staked: settled.amount_staked,
            settled_reward: settled.settled_reward,
            apr: moved.apr,
            votes: moved.votes,
        };
        proof {
            lemma_vote_keeps_invariant(self@, account@, vote, now);
        }
        let mut parts = LedgerParts::blank();
        std::mem::swap(&mut parts, &mut self.parts);
        parts.store.put(account, record);
        self.parts = parts;
        Ok(())
    }

    /// Takes the report that the transfer filed under `handle` went through
    /// (`success`) or failed, at `now`. A success forgets the intent. A
    /// failure credits back what the transfer had debited, a withdrawal to
    /// the principal of the settled record and to the total, a reward to the
    /// settled reward, and forgets the intent. A handle under which nothing
    /// is pending changes nothing.
    ///
    /// Fails with `ArithmeticOverflow`, keeping the intent, where a failed
    /// transfer cannot be credited back.
    pub fn on_transfer_outcome(&mut self, handle: u64, success: bool, now: u64) -> (r: Result<
        TransferOutcome,
        LedgerError,
    >)
        ensures
            r == old(self)@.resolution_outcome(handle, success, now),
            r is Ok ==> final(self)@ == old(self)@.resolved(handle, r->Ok_0, now),
            r is Err ==> final(self)@ == old(self)@,
            final(self)@.wf(),
    {
        proof {
            use_type_invariant(&*self);
        }
        let intent: PendingTransfer = match self.parts.transfers.pending(handle) {
            Some(intent) => intent,
            None => {
                return Ok(TransferOutcome::NotPending);
            },
        };
        proof {
            if self@.resolution_outcome(handle, success, now) is Ok {
                lemma_resolution_keeps_invariant(self@, handle, success, now);
            }
        }
        if success {
            let mut parts = LedgerParts::blank();
            std::mem::swap(&mut parts, &mut self.parts);
            let _ = parts.transfers.resolve(handle);
            self.parts = parts;
            return Ok(TransferOutcome::Finalized);
        }
        let payee: &str = intent.account.as_str();
        let existing: StakeInfo = match self.parts.store.get(payee) {
            Some(existing) => existing,
            None => {
                // Cannot happen: every transfer in flight pays an account
                // that has a record.
                assert(false);
                return Err(LedgerError::NoStake);
            },
        };
        let (record, total_staked): (StakeInfo, u128) = match intent.kind {
            TransferKind::Withdrawal => {
                let settled = match existing.settle(now) {
                    Ok(settled) => settled,
                    Err(e) => {
                        return Err(e);
                    },
                };
                let total_staked: u128 = match self.parts.total_staked.checked_add(intent.amount) {
                    Some(total) => total,
                    None => {
                        return Err(LedgerError::ArithmeticOverflow);
                    },
                };
                proof {
                    lemma_record_within_total(self@.store, payee@);
                }
                (
                    StakeInfo {
                        time_settled: settled.time_settled,
                        amount_staked: settled.amount_staked + intent.amount,
                        settled_reward: settled.settled_reward,
                        apr: settled.apr,
                        votes: settled.votes,
                    },
                    total_staked,
                )
            },
            TransferKind::RewardPayout => {
                let settled_reward: u128 = match existing.settled_reward.checked_add(
                    intent.amount,
                ) {
                    Some(reward) => reward,
                    None => {
                        return Err(LedgerError::ArithmeticOverflow);
                    },
                };
                (
                    StakeInfo {
                        time_settled: existing.time_settled,
                        amount_staked: existing.amount_staked,
                        settled_reward,
                        apr: existing.apr,
                        votes: existing.votes,
                    },
                    self.parts.total_staked,
                )
            },
        };
        let mut parts = LedgerParts::blank();
        std::mem::swap(&mut parts, &mut self.parts);
        parts.store.put(payee, record);
        parts.total_staked = total_staked;
        let _ = parts.transfers.resolve(handle);
        self.parts = parts;
        Ok(TransferOutcome::Compensated)
    }
}

} // verus!
