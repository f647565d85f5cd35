//! The reward accrual engine: the stake record of one account and the
//! interest it has earned since it was last settled.
//!
//! The numbers, which callers and stored records share:
//! - principal and reward count whole token units;
//! - a rate is the fraction of the principal earned in a year, in fixed
//!   point: an `apr` of [`APR_SCALE`] is 100% a year;
//! - time is in whole seconds;
//! - interest is simple, not compounded: principal times seconds times rate,
//!   divided by [`SECONDS_PER_YEAR`] times [`APR_SCALE`], rounded down;
//! - the product under the division is formed in 128 bits. Where it does not
//!   fit, the reward is not computed and the operation fails with
//!   `ArithmeticOverflow`; nothing ever wraps.

use vstd::prelude::*;
use crate::error::LedgerError;

verus! {

/// Seconds in a year of 365 days.
pub const SECONDS_PER_YEAR: u64 = 31_536_000;

/// The fixed-point scale of a rate: this `apr` is 100% a year.
pub const APR_SCALE: u128 = 1_000_000_000_000_000_000_000_000;

/// The rate a record starts with: 5% a year.
pub const DEFAULT_APR: u128 = 50_000_000_000_000_000_000_000;

/// `SECONDS_PER_YEAR * APR_SCALE`, by which principal times seconds times
/// rate is divided.
pub const ACCRUAL_DIVISOR: u128 = 31_536_000_000_000_000_000_000_000_000_000;

/// The stake record of one account.
#[derive(Clone, Copy, PartialEq, Eq, Debug, Structural)]
pub struct StakeInfo {
    /// When reward was last folded into `settled_reward`, in seconds.
    pub time_settled: u64,
    /// The principal under management.
    pub amount_staked: u128,
    /// Reward earned up to `time_settled` and not yet paid.
    pub settled_reward: u128,
    /// The annual rate, scaled by [`APR_SCALE`].
    pub apr: u128,
    /// The net weight of the votes applied to `apr`.
    pub votes: i64,
}

/// Principal times seconds times rate, before the division.
pub open spec fn accrual_product(principal: int, elapsed: int, apr: int) -> int {
    principal * elapsed * apr
}

/// Simple interest on `principal` at `apr` over `elapsed` seconds, rounded down.
pub open spec fn accrued_interest(principal: int, elapsed: int, apr: int) -> int {
    accrual_product(principal, elapsed, apr) / (SECONDS_PER_YEAR as int * APR_SCALE as int)
}

impl StakeInfo {
    /// Seconds from the last settlement to `now`.
    pub open spec fn elapsed(self, now: u64) -> int {
        now - self.time_settled
    }

    /// Interest earned from the last settlement to `now`.
    pub open spec fn interest_at(self, now: u64) -> int {
        accrued_interest(self.amount_staked as int, self.elapsed(now), self.apr as int)
    }

    /// Everything owed at `now`: the interest since the last settlement and
    /// what was settled before and not yet paid.
    pub open spec fn reward_at(self, now: u64) -> int {
        self.interest_at(now) + self.settled_reward
    }

    /// Whether the reward at `now` can be computed: the clock has not gone
    /// back behind the last settlement, and neither the product under the
    /// division nor the sum leaves 128 bits.
    pub open spec fn accrual_defined(self, now: u64) -> bool {
        &&& self.time_settled <= now
        &&& accrual_product(self.amount_staked as int, self.elapsed(now), self.apr as int)
            <= u128::MAX
        &&& self.reward_at(now) <= u128::MAX
    }

    /// What [`StakeInfo::pending_reward`] returns.
    pub open spec fn reward_outcome(self, now: u64) -> Result<u128, LedgerError> {
        if self.accrual_defined(now) {
            Ok(self.reward_at(now) as u128)
        } else {
            Err(LedgerError::ArithmeticOverflow)
        }
    }

    /// The record as it stands once the reward at `now` is folded in.
    pub open spec fn settled_at(self, now: u64) -> StakeInfo {
        StakeInfo { time_settled: now, settled_reward: self.reward_at(now) as u128, ..self }
    }

    /// What [`StakeInfo::settle`] returns.
    pub open spec fn settle_outcome(self, now: u64) -> Result<StakeInfo, LedgerError> {
        if self.accrual_defined(now) {
            Ok(self.settled_at(now))
        } else {
            Err(LedgerError::ArithmeticOverflow)
        }
    }

    /// The record of an account that stakes `amount` for the first time.
    pub open spec fn opened(amount: u128, now: u64) -> StakeInfo {
        StakeInfo {
            time_settled: now,
            amount_staked: amount,
            settled_reward: 0,
            apr: DEFAULT_APR,
            votes: 0,
        }
    }

    /// A fresh record: `amount` staked at `now`, no reward, the default rate,
    /// no votes.
    pub fn open(amount: u128, now: u64) -> (record: StakeInfo)
        ensures
            record == StakeInfo::opened(amount, now),
    {
        StakeInfo {
            time_settled: now,
            amount_staked: amount,
            settled_reward: 0,
            apr: DEFAULT_APR,
            votes: 0,
        }
    }

    /// The reward owed at `now`, read-only. Fails with `ArithmeticOverflow`
    /// where `now` lies before the last settlement or a step of the
    /// computation does not fit 128 bits.
    pub fn pending_reward(&self, now: u64) -> (r: Result<u128, LedgerError>)
        ensures
            r == self.reward_outcome(now),
    {
        if now < self.time_settled {
            return Err(LedgerError::ArithmeticOverflow);
        }
        let elapsed: u128 = (now - self.time_settled) as u128;
        let principal: u128 = self.amount_staked;
        let apr: u128 = self.apr;
        if apr == 0 {
            proof {
                lemma_product_zero_rate(principal as int, elapsed as int);
            }
            return Ok(self.settled_reward);
        }
        let weighted: u128 = match principal.checked_mul(elapsed) {
            Some(w) => w,
            None => {
                proof {
                    lemma_product_grows(principal as int * elapsed as int, apr as int);
                }
                return Err(LedgerError::ArithmeticOverflow);
            },
        };
        let product: u128 = match weighted.checked_mul(apr) {
            Some(p) => p,
            None => {
                return Err(LedgerError::ArithmeticOverflow);
            },
        };
        assert(SECONDS_PER_YEAR as int * APR_SCALE as int == ACCRUAL_DIVISOR as int);
        let interest: u128 = product / ACCRUAL_DIVISOR;
        match interest.checked_add(self.settled_reward) {
            Some(reward) => Ok(reward),
            None => Err(LedgerError::ArithmeticOverflow),
        }
    }

    /// Folds the reward owed at `now` into `settled_reward` and moves
    /// `time_settled` to `now`. Fails exactly where
    /// [`StakeInfo::pending_reward`] fails.
    pub fn settle(&self, now: u64) -> (r: Result<StakeInfo, LedgerError>)
        ensures
            r == self.settle_outcome(now),
    {
        match self.pending_reward(now) {
            Ok(reward) => Ok(
                StakeInfo {
                    time_settled: now,
                    amount_staked: self.amount_staked,
                    settled_reward: reward,
                    apr: self.apr,
                    votes: self.votes,
                },
            ),
            Err(e) => Err(e),
        }
    }
}

/// The reward owed on a record never shrinks as time goes on, and where it
/// can be computed at some time it can be computed at every earlier time
/// since the last settlement.
pub proof fn lemma_reward_monotonic(record: StakeInfo, earlier: u64, later: u64)
    requires
        record.time_settled <= earlier <= later,
    ensures
        record.reward_at(earlier) <= record.reward_at(later),
        record.accrual_defined(later) ==> record.accrual_defined(earlier),
{
    lemma_interest_monotonic(
        record.amount_staked as int,
        record.apr as int,
        record.elapsed(earlier),
        record.elapsed(later),
    );
}

/// For a fixed principal and rate, interest is non-decreasing in elapsed
/// time, and so is the product under the division.
pub proof fn lemma_interest_monotonic(principal: int, apr: int, shorter: int, longer: int)
    requires
        0 <= principal,
        0 <= apr,
        0 <= shorter <= longer,
    ensures
        0 <= accrual_product(principal, shorter, apr) <= accrual_product(principal, longer, apr),
        0 <= accrued_interest(principal, shorter, apr) <= accrued_interest(principal, longer, apr),
{
    let low = accrual_product(principal, shorter, apr);
    let high = accrual_product(principal, longer, apr);
    assert(0 <= principal * shorter * apr <= principal * longer * apr) by (nonlinear_arith)
        requires
            0 <= principal,
            0 <= apr,
            0 <= shorter <= longer,
    ;
    let divisor = SECONDS_PER_YEAR as int * APR_SCALE as int;
    assert(divisor == ACCRUAL_DIVISOR as int);
    vstd::arithmetic::div_mod::lemma_div_is_ordered(low, high, divisor);
    vstd::arithmetic::div_mod::lemma_div_is_ordered(0, low, divisor);
}

/// Over no time at all, no interest accrues: the reward owed at the moment of
/// settlement is what was settled.
pub proof fn lemma_no_interest_without_time(record: StakeInfo)
    ensures
        record.interest_at(record.time_settled) == 0,
        record.reward_at(record.time_settled) == record.settled_reward,
        record.accrual_defined(record.time_settled),
{
    let principal = record.amount_staked as int;
    let apr = record.apr as int;
    assert(principal * 0 * apr == 0) by (nonlinear_arith);
}

proof fn lemma_product_zero_rate(principal: int, elapsed: int)
    ensures
        accrual_product(principal, elapsed, 0) == 0,
        accrued_interest(principal, elapsed, 0) == 0,
{
    assert(principal * elapsed * 0 == 0) by (nonlinear_arith);
}

proof fn lemma_product_grows(weighted: int, apr: int)
    requires
        weighted >= 0,
        apr >= 1,
    ensures
        weighted * apr >= weighted,
{
    assert(weighted * apr >= weighted) by (nonlinear_arith)
        requires
            weighted >= 0,
            apr >= 1,
    ;
}

} // verus!
