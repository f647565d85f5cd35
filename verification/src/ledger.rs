//! The stake ledger as a state machine over plain values: the state, what each
//! operation answers in a given state, the state it leaves, and the laws that
//! hold of every run.

use vstd::prelude::*;
use crate::accrual::lemma_no_interest_without_time;
use crate::accrual::lemma_reward_monotonic;
use crate::accrual::StakeInfo;
use crate::error::LedgerError;
use crate::governance::Vote;
use crate::store::lemma_put_total;
use crate::store::lemma_record_within_total;
use crate::store::RecordsView;
use crate::transfer::AdapterView;
use crate::transfer::PendingView;
use crate::transfer::TransferKind;

verus! {

/// How the report of a transfer's outcome was dealt with.
#[derive(Clone, Copy, PartialEq, Eq, Debug, Structural)]
pub enum TransferOutcome {
    /// The transfer went through; its intent is forgotten.
    Finalized,
    /// The transfer failed; what it had debited is credited back and its
    /// intent is forgotten.
    Compensated,
    /// No transfer is pending under the handle; nothing changed.
    NotPending,
}

/// An operation that can change the ledger, with its arguments.
pub enum LedgerOp {
    /// A deposit of `amount` by `account`.
    Deposit { account: Seq<char>, amount: u128, now: u64 },
    /// A withdrawal of `amount` by `account`.
    Withdraw { account: Seq<char>, amount: u128, now: u64 },
    /// A claim of the reward owed to `account`.
    Claim { account: Seq<char>, now: u64 },
    /// A vote on the rate of `account`.
    CastVote { account: Seq<char>, vote: Vote, now: u64 },
    /// The report that the transfer under `handle` went through or failed.
    Resolve { handle: u64, success: bool, now: u64 },
}

/// The state of the ledger.
pub struct LedgerView {
    /// The token ledger that this ledger transacts with.
    pub token_address: Seq<char>,
    /// The number of accounts that have ever staked.
    pub total_stakers: u128,
    /// The principal under management, over all accounts.
    pub total_staked: u128,
    /// The stake records.
    pub store: RecordsView,
    /// The outbound transfers in flight.
    pub transfers: AdapterView,
}

impl LedgerView {
    /// The ledger right after initialization.
    pub open spec fn initial(token_address: Seq<char>) -> LedgerView {
        LedgerView {
            token_address,
            total_stakers: 0,
            total_staked: 0,
            store: RecordsView::empty(),
            transfers: AdapterView::starting_at(0),
        }
    }

    /// The invariant of the ledger: `total_staked` is the sum of the principal
    /// of all records, `total_stakers` is the number of records, and every
    /// transfer in flight pays an account that has a record.
    pub open spec fn wf(self) -> bool {
        &&& self.store.wf()
        &&& self.transfers.wf()
        &&& self.total_staked == self.store.total_staked()
        &&& self.total_stakers == self.store.stakers.len()
        &&& forall|handle: u64| #[trigger]
            self.transfers.pending.contains_key(handle) ==> self.store.contains(
                self.transfers.pending[handle].account,
            )
    }

    /// The record of `account`; meaningful where it has one.
    pub open spec fn record(self, account: Seq<char>) -> StakeInfo {
        self.store.records[account]
    }

    /// The ledger with `record` written for `account`.
    pub open spec fn with_record(self, account: Seq<char>, record: StakeInfo) -> LedgerView {
        LedgerView { store: self.store.put(account, record), ..self }
    }

    // Deposit

    /// What a deposit of `amount` by `account` at `now` answers.
    pub open spec fn deposit_outcome(self, account: Seq<char>, amount: u128, now: u64) -> Result<
        (),
        LedgerError,
    > {
        if amount == 0 {
            Err(LedgerError::InvalidAmount)
        } else if self.store.contains(account) && !self.record(account).accrual_defined(now) {
            Err(LedgerError::ArithmeticOverflow)
        } else if !self.store.contains(account) && self.total_stakers + 1 > u128::MAX {
            Err(LedgerError::ArithmeticOverflow)
        } else if self.total_staked + amount > u128::MAX {
            Err(LedgerError::ArithmeticOverflow)
        } else {
            Ok(())
        }
    }

    /// The record of `account` after a deposit: a first deposit opens it, a
    /// later one settles it and adds to the principal.
    pub open spec fn deposited_record(self, account: Seq<char>, amount: u128, now: u64)
        -> StakeInfo {
        if self.store.contains(account) {
            let settled = self.record(account).settled_at(now);
            StakeInfo { amount_staked: (settled.amount_staked + amount) as u128, ..settled }
        } else {
            StakeInfo::opened(amount, now)
        }
    }

    /// The ledger after a deposit that was accepted.
    pub open spec fn deposited(self, account: Seq<char>, amount: u128, now: u64) -> LedgerView {
        LedgerView {
            total_stakers: if self.store.contains(account) {
                self.total_stakers
            } else {
                (self.total_stakers + 1) as u128
            },
            total_staked: (self.total_staked + amount) as u128,
            store: self.store.put(account, self.deposited_record(account, amount, now)),
            ..self
        }
    }

    /// What the notification of a received deposit answers: only the token
    /// ledger may send it, and a deposit that is accepted is staked in full,
    /// so that nothing is handed back.
    pub open spec fn notification_outcome(
        self,
        caller: Seq<char>,
        sender: Seq<char>,
        amount: u128,
        now: u64,
    ) -> Result<u128, LedgerError> {
        if caller != self.token_address {
            Err(LedgerError::UnauthorizedCaller)
        } else {
            match self.deposit_outcome(sender, amount, now) {
                Ok(_) => Ok(0u128),
                Err(e) => Err(e),
            }
        }
    }

    // Withdrawal

    /// What a withdrawal of `amount` by `account` at `now` answers: the
    /// transfer to make, or why it is refused.
    pub open spec fn withdraw_outcome(self, account: Seq<char>, amount: u128, now: u64) -> Result<
        PendingView,
        LedgerError,
    > {
        if !self.store.contains(account) {
            Err(LedgerError::NoStake)
        } else if amount == 0 {
            Err(LedgerError::InvalidAmount)
        } else if amount > self.record(account).amount_staked {
            Err(LedgerError::InsufficientStake)
        } else if !self.record(account).accrual_defined(now) || !self.transfers.has_room() {
            Err(LedgerError::ArithmeticOverflow)
        } else {
            Ok(self.transfers.next_intent(account, amount, TransferKind::Withdrawal))
        }
    }

    /// The ledger after a withdrawal that was accepted: the record settled,
    /// principal and total debited, and the transfer filed.
    pub open spec fn withdrawn(self, account: Seq<char>, amount: u128, now: u64) -> LedgerView {
        let settled = self.record(account).settled_at(now);
        LedgerView {
            total_staked: (self.total_staked - amount) as u128,
            store: self.store.put(
                account,
                StakeInfo { amount_staked: (settled.amount_staked - amount) as u128, ..settled },
            ),
            transfers: self.transfers.requested(account, amount, TransferKind::Withdrawal),
            ..self
        }
    }

    // Claim

    /// What a claim by `account` at `now` answers: the transfer to make, or
    /// why it is refused.
    pub open spec fn claim_outcome(self, account: Seq<char>, now: u64) -> Result<
        PendingView,
        LedgerError,
    > {
        if !self.store.contains(account) {
            Err(LedgerError::NoStake)
        } else if !self.record(account).accrual_defined(now) {
            Err(LedgerError::ArithmeticOverflow)
        } else if self.record(account).reward_at(now) == 0 {
            Err(LedgerError::NoReward)
        } else if !self.transfers.has_room() {
            Err(LedgerError::ArithmeticOverflow)
        } else {
            Ok(
                self.transfers.next_intent(
                    account,
                    self.record(account).reward_at(now) as u128,
                    TransferKind::RewardPayout,
                ),
            )
        }
    }

    /// The ledger after a claim that was accepted: nothing is owed any more as
    /// of `now`, and the transfer of the reward is filed.
    pub open spec fn claimed(self, account: Seq<char>, now: u64) -> LedgerView {
        let record = self.record(account);
        LedgerView {
            store: self.store.put(
                account,
                StakeInfo { time_settled: now, settled_reward: 0, ..record },
            ),
            transfers: self.transfers.requested(
                account,
                record.reward_at(now) as u128,
                TransferKind::RewardPayout,
            ),
            ..self
        }
    }

    // Governance

    /// What `vote` on the rate of `account` at `now` answers.
    pub open spec fn vote_outcome(self, account: Seq<char>, vote: Vote, now: u64) -> Result<
        (),
        LedgerError,
    > {
        if !self.store.contains(account) {
            Err(LedgerError::NoStake)
        } else if self.record(account).below_floor(vote) {
            Err(LedgerError::RateFloorExceeded)
        } else if !self.record(account).accrual_defined(now) || !self.record(account).vote_fits(
            vote,
        ) {
            Err(LedgerError::ArithmeticOverflow)
        } else {
            Ok(())
        }
    }

    /// The ledger after a vote that was accepted: the record settled at the
    /// old rate, then the rate moved.
    pub open spec fn voted(self, account: Seq<char>, vote: Vote, now: u64) -> LedgerView {
        self.with_record(account, self.record(account).settled_at(now).voted(vote))
    }

    // Queries

    /// What the query for the reward owed to `account` at `now` answers.
    pub open spec fn reward_outcome(self, account: Seq<char>, now: u64) -> Result<
        u128,
        LedgerError,
    > {
        if !self.store.contains(account) {
            Err(LedgerError::NoStake)
        } else {
            self.record(account).reward_outcome(now)
        }
    }

    /// What the query for the principal of `account` answers.
    pub open spec fn staked_outcome(self, account: Seq<char>) -> Result<u128, LedgerError> {
        if !self.store.contains(account) {
            Err(LedgerError::NoStake)
        } else {
            Ok(self.record(account).amount_staked)
        }
    }

    // Transfer outcomes

    /// The record of the payee once a failed transfer is credited back: a
    /// withdrawal returns to the principal of the record settled at `now`, a
    /// reward returns to the settled reward.
    pub open spec fn refunded_record(self, intent: PendingView, now: u64) -> StakeInfo {
        let record = self.record(intent.account);
        match intent.kind {
            TransferKind::Withdrawal => {
                let settled = record.settled_at(now);
                StakeInfo {
                    amount_staked: (settled.amount_staked + intent.amount) as u128,
                    ..settled
                }
            },
            TransferKind::RewardPayout => StakeInfo {
                settled_reward: (record.settled_reward + intent.amount) as u128,
                ..record
            },
        }
    }

    /// Whether the failed transfer `intent` can be credited back at `now`.
    pub open spec fn refund_fits(self, intent: PendingView, now: u64) -> bool {
        let record = self.record(intent.account);
        match intent.kind {
            TransferKind::Withdrawal => record.accrual_defined(now) && self.total_staked
                + intent.amount <= u128::MAX,
            TransferKind::RewardPayout => record.settled_reward + intent.amount <= u128::MAX,
        }
    }

    /// What the report that the transfer under `handle` succeeded or failed
    /// answers.
    pub open spec fn resolution_outcome(self, handle: u64, success: bool, now: u64) -> Result<
        TransferOutcome,
        LedgerError,
    > {
        if !self.transfers.pending.contains_key(handle) {
            Ok(TransferOutcome::NotPending)
        } else if success {
            Ok(TransferOutcome::Finalized)
        } else if !self.refund_fits(self.transfers.pending[handle], now) {
            Err(LedgerError::ArithmeticOverflow)
        } else {
            Ok(TransferOutcome::Compensated)
        }
    }

    /// The ledger after the report was dealt with as `outcome`.
    pub open spec fn resolved(self, handle: u64, outcome: TransferOutcome, now: u64) -> LedgerView {
        match outcome {
            TransferOutcome::NotPending => self,
            TransferOutcome::Finalized => LedgerView {
                transfers: self.transfers.resolved(handle),
                ..self
            },
            TransferOutcome::Compensated => {
                let intent = self.transfers.pending[handle];
                LedgerView {
                    total_staked: match intent.kind {
                        TransferKind::Withdrawal => (self.total_staked + intent.amount) as u128,
                        TransferKind::RewardPayout => self.total_staked,
                    },
                    store: self.store.put(intent.account, self.refunded_record(intent, now)),
                    transfers: self.transfers.resolved(handle),
                    ..self
                }
            },
        }
    }
}

impl LedgerView {
    // Runs

    /// The ledger after `op`: what the operation leaves where it is accepted,
    /// the ledger unchanged where it is refused.
    pub open spec fn step(self, op: LedgerOp) -> LedgerView {
        match op {
            LedgerOp::Deposit { account, amount, now } => if self.deposit_outcome(
                account,
                amount,
                now,
            ) is Ok {
                self.deposited(account, amount, now)
            } else {
                self
            },
            LedgerOp::Withdraw { account, amount, now } => if self.withdraw_outcome(
                account,
                amount,
                now,
            ) is Ok {
                self.withdrawn(account, amount, now)
            } else {
                self
            },
            LedgerOp::Claim { account, now } => if self.claim_outcome(account, now) is Ok {
                self.claimed(account, now)
            } else {
                self
            },
            LedgerOp::CastVote { account, vote, now } => if self.vote_outcome(account, vote, now)
                is Ok {
                self.voted(account, vote, now)
            } else {
                self
            },
            LedgerOp::Resolve { handle, success, now } => match self.resolution_outcome(
                handle,
                success,
                now,
            ) {
                Ok(outcome) => self.resolved(handle, outcome, now),
                Err(_) => self,
            },
        }
    }

    /// The ledger after the operations of `ops`, one after the other.
    pub open spec fn run(self, ops: Seq<LedgerOp>) -> LedgerView
        decreases ops.len(),
    {
        if ops.len() == 0 {
            self
        } else {
            self.run(ops.drop_last()).step(ops.last())
        }
    }

    /// Whether the ledger has come from `earlier` without losing anything that
    /// only grows: the token ledger is the same, no staker is uncounted, no
    /// record is gone and none is settled at an earlier time than it was.
    pub open spec fn extends(self, earlier: LedgerView) -> bool {
        &&& self.token_address == earlier.token_address
        &&& self.total_stakers >= earlier.total_stakers
        &&& forall|account: Seq<char>| #[trigger]
            earlier.store.contains(account) ==> self.store.contains(account) && self.record(
                account,
            ).time_settled >= earlier.record(account).time_settled
    }

    // Carrying a ledger over

    /// The ledger with no records that goes on giving out transfer handles
    /// from `next_handle`.
    pub open spec fn resumed(token_address: Seq<char>, next_handle: u64) -> LedgerView {
        LedgerView {
            transfers: AdapterView::starting_at(next_handle),
            ..LedgerView::initial(token_address)
        }
    }

    /// Whether `record` can be taken in for `account`: the account has no
    /// record yet and the totals have room for it.
    pub open spec fn admits_record(self, account: Seq<char>, record: StakeInfo) -> bool {
        &&& !self.store.contains(account)
        &&& self.total_stakers + 1 <= u128::MAX
        &&& self.total_staked + record.amount_staked <= u128::MAX
    }

    /// The ledger once `record` is taken in for `account`.
    pub open spec fn with_reinstated_record(self, account: Seq<char>, record: StakeInfo)
        -> LedgerView {
        LedgerView {
            total_stakers: (self.total_stakers + 1) as u128,
            total_staked: (self.total_staked + record.amount_staked) as u128,
            store: self.store.put(account, record),
            ..self
        }
    }

    /// Whether the transfer `intent` can be taken in as pending: it pays an
    /// account that has a record, under a handle that was given out and is
    /// not in use.
    pub open spec fn admits_transfer(self, intent: PendingView) -> bool {
        &&& self.store.contains(intent.account)
        &&& self.transfers.admits(intent)
    }

    /// The ledger once `intent` is taken in as pending.
    pub open spec fn with_reinstated_transfer(self, intent: PendingView) -> LedgerView {
        LedgerView { transfers: self.transfers.reinstated(intent), ..self }
    }
}

/// Filing a transfer for an account that has a record keeps the ledger well
/// formed.
proof fn lemma_filed_wf(
    before: LedgerView,
    after: LedgerView,
    account: Seq<char>,
    amount: u128,
    kind: TransferKind,
)
    requires
        before.wf(),
        before.transfers.has_room(),
        after.store.wf(),
        after.total_staked == after.store.total_staked(),
        after.total_stakers == after.store.stakers.len(),
        after.store.contains(account),
        forall|other: Seq<char>| before.store.contains(other) ==> after.store.contains(other),
        after.transfers == before.transfers.requested(account, amount, kind),
    ensures
        after.wf(),
{
    assert forall|handle: u64| #[trigger]
        after.transfers.pending.contains_key(handle) implies handle < after.transfers.next_handle
        && after.transfers.pending[handle].handle == handle && after.store.contains(
        after.transfers.pending[handle].account,
    ) by {
        if handle != before.transfers.next_handle {
            assert(before.transfers.pending.contains_key(handle));
        }
    }
}

/// A deposit that is accepted leaves a well-formed ledger: in particular
/// `total_staked` is again the sum of all principal.
pub proof fn lemma_deposit_keeps_invariant(
    ledger: LedgerView,
    account: Seq<char>,
    amount: u128,
    now: u64,
)
    requires
        ledger.wf(),
        ledger.deposit_outcome(account, amount, now) is Ok,
    ensures
        ledger.deposited(account, amount, now).wf(),
{
    let after = ledger.deposited(account, amount, now);
    lemma_put_total(ledger.store, account, ledger.deposited_record(account, amount, now));
    if ledger.store.contains(account) {
        lemma_record_within_total(ledger.store, account);
    }
    assert forall|handle: u64| #[trigger]
        after.transfers.pending.contains_key(handle) implies after.store.contains(
        after.transfers.pending[handle].account,
    ) by {
        assert(ledger.store.contains(ledger.transfers.pending[handle].account));
    }
}

/// A withdrawal that is accepted leaves a well-formed ledger.
pub proof fn lemma_withdraw_keeps_invariant(
    ledger: LedgerView,
    account: Seq<char>,
    amount: u128,
    now: u64,
)
    requires
        ledger.wf(),
        ledger.withdraw_outcome(account, amount, now) is Ok,
    ensures
        ledger.withdrawn(account, amount, now).wf(),
{
    let after = ledger.withdrawn(account, amount, now);
    let settled = ledger.record(account).settled_at(now);
    lemma_put_total(
        ledger.store,
        account,
        StakeInfo { amount_staked: (settled.amount_staked - amount) as u128, ..settled },
    );
    lemma_record_within_total(ledger.store, account);
    lemma_filed_wf(ledger, after, account, amount, TransferKind::Withdrawal);
}

/// A claim that is accepted leaves a well-formed ledger and the principal of
/// every account as it was.
pub proof fn lemma_claim_keeps_invariant(ledger: LedgerView, account: Seq<char>, now: u64)
    requires
        ledger.wf(),
        ledger.claim_outcome(account, now) is Ok,
    ensures
        ledger.claimed(account, now).wf(),
        ledger.claimed(account, now).total_staked == ledger.total_staked,
{
    let after = ledger.claimed(account, now);
    let record = ledger.record(account);
    lemma_put_total(
        ledger.store,
        account,
        StakeInfo { time_settled: now, settled_reward: 0, ..record },
    );
    lemma_filed_wf(
        ledger,
        after,
        account,
        record.reward_at(now) as u128,
        TransferKind::RewardPayout,
    );
}

/// A vote that is accepted leaves a well-formed ledger and the principal of
/// every account as it was.
pub proof fn lemma_vote_keeps_invariant(
    ledger: LedgerView,
    account: Seq<char>,
    vote: Vote,
    now: u64,
)
    requires
        ledger.wf(),
        ledger.vote_outcome(account, vote, now) is Ok,
    ensures
        ledger.voted(account, vote, now).wf(),
        ledger.voted(account, vote, now).total_staked == ledger.total_staked,
{
    let after = ledger.voted(account, vote, now);
    lemma_put_total(ledger.store, account, ledger.record(account).settled_at(now).voted(vote));
    assert forall|handle: u64| #[trigger]
        after.transfers.pending.contains_key(handle) implies after.store.contains(
        after.transfers.pending[handle].account,
    ) by {
        assert(ledger.store.contains(ledger.transfers.pending[handle].account));
    }
}

/// Dealing with the report of a transfer's outcome leaves a well-formed
/// ledger, whether the transfer is forgotten or credited back.
pub proof fn lemma_resolution_keeps_invariant(
    ledger: LedgerView,
    handle: u64,
    success: bool,
    now: u64,
)
    requires
        ledger.wf(),
        ledger.resolution_outcome(handle, success, now) is Ok,
    ensures
        ledger.resolved(handle, ledger.resolution_outcome(handle, success, now)->Ok_0, now).wf(),
{
    let outcome = ledger.resolution_outcome(handle, success, now)->Ok_0;
    let after = ledger.resolved(handle, outcome, now);
    if outcome == TransferOutcome::Compensated {
        let intent = ledger.transfers.pending[handle];
        assert(ledger.store.contains(intent.account));
        lemma_put_total(ledger.store, intent.account, ledger.refunded_record(intent, now));
        lemma_record_within_total(ledger.store, intent.account);
    }
    if outcome != TransferOutcome::NotPending {
        assert forall|other: u64| #[trigger]
            after.transfers.pending.contains_key(other) implies other
            < after.transfers.next_handle && after.transfers.pending[other].handle == other
            && after.store.contains(after.transfers.pending[other].account) by {
            assert(ledger.transfers.pending.contains_key(other));
            assert(ledger.store.contains(ledger.transfers.pending[other].account));
        }
    }
}

/// Taking in a record or a pending transfer that the ledger admits leaves a
/// well-formed ledger.
pub proof fn lemma_reinstating_keeps_invariant(
    ledger: LedgerView,
    account: Seq<char>,
    record: StakeInfo,
    intent: PendingView,
)
    requires
        ledger.wf(),
    ensures
        ledger.admits_record(account, record) ==> ledger.with_reinstated_record(
            account,
            record,
        ).wf(),
        ledger.admits_transfer(intent) ==> ledger.with_reinstated_transfer(intent).wf(),
{
    if ledger.admits_record(account, record) {
        let after = ledger.with_reinstated_record(account, record);
        lemma_put_total(ledger.store, account, record);
        assert forall|handle: u64| #[trigger]
            after.transfers.pending.contains_key(handle) implies after.store.contains(
            after.transfers.pending[handle].account,
        ) by {
            assert(ledger.store.contains(ledger.transfers.pending[handle].account));
        }
    }
    if ledger.admits_transfer(intent) {
        let after = ledger.with_reinstated_transfer(intent);
        assert forall|handle: u64| #[trigger]
            after.transfers.pending.contains_key(handle) implies handle
            < after.transfers.next_handle && after.transfers.pending[handle].handle == handle
            && after.store.contains(after.transfers.pending[handle].account) by {
            if handle != intent.handle {
                assert(ledger.transfers.pending.contains_key(handle));
            }
        }
    }
}

/// Whatever operation is tried, accepted or refused, the ledger stays well
/// formed, so that `total_staked` is the sum of the principal of all records,
/// and it extends the ledger before: `total_stakers` does not fall, no record
/// disappears and no record's settlement time goes back.
pub proof fn lemma_step_keeps_invariant(ledger: LedgerView, op: LedgerOp)
    requires
        ledger.wf(),
    ensures
        ledger.step(op).wf(),
        ledger.step(op).total_staked == ledger.step(op).store.total_staked(),
        ledger.step(op).extends(ledger),
{
    let after = ledger.step(op);
    match op {
        LedgerOp::Deposit { account, amount, now } => {
            if ledger.deposit_outcome(account, amount, now) is Ok {
                lemma_deposit_keeps_invariant(ledger, account, amount, now);
            }
        },
        LedgerOp::Withdraw { account, amount, now } => {
            if ledger.withdraw_outcome(account, amount, now) is Ok {
                lemma_withdraw_keeps_invariant(ledger, account, amount, now);
            }
        },
        LedgerOp::Claim { account, now } => {
            if ledger.claim_outcome(account, now) is Ok {
                lemma_claim_keeps_invariant(ledger, account, now);
            }
        },
        LedgerOp::CastVote { account, vote, now } => {
            if ledger.vote_outcome(account, vote, now) is Ok {
                lemma_vote_keeps_invariant(ledger, account, vote, now);
            }
        },
        LedgerOp::Resolve { handle, success, now } => {
            if ledger.resolution_outcome(handle, success, now) is Ok {
                lemma_resolution_keeps_invariant(ledger, handle, success, now);
            }
        },
    }
    assert forall|account: Seq<char>| #[trigger]
        ledger.store.contains(account) implies after.store.contains(account) && after.record(
        account,
    ).time_settled >= ledger.record(account).time_settled by {}
}

/// After any sequence of operations on a well-formed ledger, `total_staked`
/// equals the sum of `amount_staked` over all records, `total_stakers` has not
/// fallen, and every record that was there still is, settled no earlier than
/// it was.
pub proof fn lemma_run_keeps_invariant(ledger: LedgerView, ops: Seq<LedgerOp>)
    requires
        ledger.wf(),
    ensures
        ledger.run(ops).wf(),
        ledger.run(ops).total_staked == ledger.run(ops).store.total_staked(),
        ledger.run(ops).extends(ledger),
    decreases ops.len(),
{
    if ops.len() > 0 {
        let before = ledger.run(ops.drop_last());
        lemma_run_keeps_invariant(ledger, ops.drop_last());
        lemma_step_keeps_invariant(before, ops.last());
        let after = before.step(ops.last());
        assert forall|account: Seq<char>| #[trigger]
            ledger.store.contains(account) implies after.store.contains(account) && after.record(
            account,
        ).time_settled >= ledger.record(account).time_settled by {
            assert(before.store.contains(account));
        }
    }
}

/// A record comes into being only by a deposit of at least one unit by its
/// account: no other operation, and no deposit that is refused, adds one.
pub proof fn lemma_records_come_from_deposits(ledger: LedgerView, op: LedgerOp, account: Seq<char>)
    requires
        ledger.wf(),
        !ledger.store.contains(account),
        ledger.step(op).store.contains(account),
    ensures
        op matches LedgerOp::Deposit { account: staker, amount, now } && staker == account
            && amount >= 1 && ledger.step(op).record(account) == StakeInfo::opened(amount, now),
{
    match op {
        LedgerOp::Resolve { handle, success, now } => {
            if ledger.resolution_outcome(handle, success, now) == Ok::<
                TransferOutcome,
                LedgerError,
            >(TransferOutcome::Compensated) {
                assert(ledger.store.contains(ledger.transfers.pending[handle].account));
            }
        },
        _ => {},
    }
}

/// The settled reward of a record falls only by a claim of its account that
/// is accepted, which takes it to zero; whatever else is tried leaves it as it
/// was or raises it.
pub proof fn lemma_settled_reward_falls_only_by_claim(
    ledger: LedgerView,
    op: LedgerOp,
    account: Seq<char>,
)
    requires
        ledger.wf(),
        ledger.store.contains(account),
    ensures
        ledger.step(op).record(account).settled_reward >= ledger.record(account).settled_reward
            || (op matches LedgerOp::Claim { account: claimant, now } && claimant == account
            && ledger.claim_outcome(account, now) is Ok && ledger.step(op).record(
            account,
        ).settled_reward == 0),
{
    let record = ledger.record(account);
    match op {
        LedgerOp::Deposit { account: staker, amount, now } => {
            if ledger.deposit_outcome(staker, amount, now) is Ok && staker == account {
                lemma_reward_monotonic(record, record.time_settled, now);
                lemma_no_interest_without_time(record);
            }
        },
        LedgerOp::Withdraw { account: staker, amount, now } => {
            if ledger.withdraw_outcome(staker, amount, now) is Ok && staker == account {
                lemma_reward_monotonic(record, record.time_settled, now);
                lemma_no_interest_without_time(record);
            }
        },
        LedgerOp::Claim { account: claimant, now } => {},
        LedgerOp::CastVote { account: staker, vote, now } => {
            if ledger.vote_outcome(staker, vote, now) is Ok && staker == account {
                lemma_reward_monotonic(record, record.time_settled, now);
                lemma_no_interest_without_time(record);
            }
        },
        LedgerOp::Resolve { handle, success, now } => {
            if ledger.resolution_outcome(handle, success, now) == Ok::<
                TransferOutcome,
                LedgerError,
            >(TransferOutcome::Compensated) {
                let intent = ledger.transfers.pending[handle];
                if intent.account == account && intent.kind == TransferKind::Withdrawal {
                    lemma_reward_monotonic(record, record.time_settled, now);
                    lemma_no_interest_without_time(record);
                }
            }
        },
    }
}

/// A deposit followed at once by a withdrawal accrues nothing: with no time
/// between them, the reward owed to the account after the withdrawal is the
/// reward owed after the deposit, which is what was owed before the deposit
/// (nothing, for an account that had no record).
pub proof fn lemma_deposit_then_withdraw_accrues_nothing(
    ledger: LedgerView,
    account: Seq<char>,
    staked: u128,
    taken: u128,
    now: u64,
)
    requires
        ledger.wf(),
        ledger.deposit_outcome(account, staked, now) is Ok,
        ledger.deposited(account, staked, now).withdraw_outcome(account, taken, now) is Ok,
    ensures
        ({
            let between = ledger.deposited(account, staked, now);
            let after = between.withdrawn(account, taken, now);
            let owed: u128 = if ledger.store.contains(account) {
                ledger.record(account).reward_at(now) as u128
            } else {
                0
            };
            &&& between.reward_outcome(account, now) == Ok::<u128, LedgerError>(owed)
            &&& after.reward_outcome(account, now) == Ok::<u128, LedgerError>(owed)
        }),
{
    let between = ledger.deposited(account, staked, now);
    let after = between.withdrawn(account, taken, now);
    lemma_no_interest_without_time(between.record(account));
    lemma_no_interest_without_time(after.record(account));
    lemma_no_interest_without_time(between.record(account).settled_at(now));
}

/// A claim by an account to which nothing is owed is refused with `NoReward`,
/// and so is a claim that follows at once on one that was accepted.
pub proof fn lemma_claim_leaves_no_reward(ledger: LedgerView, account: Seq<char>, now: u64)
    requires
        ledger.wf(),
    ensures
        ledger.reward_outcome(account, now) == Ok::<u128, LedgerError>(0)
            ==> ledger.claim_outcome(account, now) == Err::<PendingView, LedgerError>(
            LedgerError::NoReward,
        ),
        ledger.claim_outcome(account, now) is Ok ==> ledger.claimed(account, now).claim_outcome(
            account,
            now,
        ) == Err::<PendingView, LedgerError>(LedgerError::NoReward),
{
    if ledger.claim_outcome(account, now) is Ok {
        lemma_no_interest_without_time(ledger.claimed(account, now).record(account));
    }
}

/// A vote that would take the rate of an account below zero is refused with
/// `RateFloorExceeded`, whatever else holds of the record and the time, and
/// leaves the ledger, and so the rate and the vote counter, as they were.
pub proof fn lemma_vote_below_floor_refused(
    ledger: LedgerView,
    account: Seq<char>,
    vote: Vote,
    now: u64,
)
    requires
        ledger.store.contains(account),
        ledger.record(account).below_floor(vote),
    ensures
        ledger.vote_outcome(account, vote, now) == Err::<(), LedgerError>(
            LedgerError::RateFloorExceeded,
        ),
        ledger.step(LedgerOp::CastVote { account, vote, now }) == ledger,
{
}

} // verus!
