//! Rate governance: the five vote levels and what a vote does to a record.

use vstd::prelude::*;
use crate::accrual::StakeInfo;
use crate::error::LedgerError;

verus! {

/// One step of a rate: a tenth of a percentage point a year.
pub const RATE_UNIT: u128 = 1_000_000_000_000_000_000_000;

/// A vote on an account's rate.
#[derive(Clone, Copy, PartialEq, Eq, Debug, Structural)]
pub enum Vote {
    /// Two units down.
    StrongDecrease,
    /// One unit down.
    Decrease,
    /// No change.
    Neutral,
    /// One unit up.
    Increase,
    /// Two units up.
    StrongIncrease,
}

impl Vote {
    /// The signed number of rate units by which the vote moves the rate, and
    /// by which it moves the record's `votes` counter.
    pub open spec fn weight(self) -> int {
        match self {
            Vote::StrongDecrease => -2,
            Vote::Decrease => -1,
            Vote::Neutral => 0,
            Vote::Increase => 1,
            Vote::StrongIncrease => 2,
        }
    }

    /// The signed change of the rate.
    pub open spec fn rate_delta(self) -> int {
        self.weight() * RATE_UNIT as int
    }

    /// The vote that a level from 1 (strong decrease) to 5 (strong increase)
    /// stands for.
    pub open spec fn of_level(level: u8) -> Option<Vote> {
        if level == 1 {
            Some(Vote::StrongDecrease)
        } else if level == 2 {
            Some(Vote::Decrease)
        } else if level == 3 {
            Some(Vote::Neutral)
        } else if level == 4 {
            Some(Vote::Increase)
        } else if level == 5 {
            Some(Vote::StrongIncrease)
        } else {
            None
        }
    }

    /// Reads a vote from its level, 1 to 5; any other level is no vote.
    pub fn from_level(level: u8) -> (vote: Option<Vote>)
        ensures
            vote == Vote::of_level(level),
    {
        match level {
            1 => Some(Vote::StrongDecrease),
            2 => Some(Vote::Decrease),
            3 => Some(Vote::Neutral),
            4 => Some(Vote::Increase),
            5 => Some(Vote::StrongIncrease),
            _ => None,
        }
    }

    /// The number of units the vote moves by, without its direction.
    fn magnitude(self) -> (units: u8)
        ensures
            units <= 2,
            units == if self.weight() < 0 { -self.weight() } else { self.weight() },
    {
        match self {
            Vote::StrongDecrease | Vote::StrongIncrease => 2,
            Vote::Decrease | Vote::Increase => 1,
            Vote::Neutral => 0,
        }
    }

    /// Whether the vote lowers the rate.
    fn lowers(self) -> (down: bool)
        ensures
            down == (self.weight() < 0),
    {
        match self {
            Vote::StrongDecrease | Vote::Decrease => true,
            _ => false,
        }
    }
}

impl StakeInfo {
    /// The record after `vote`: rate and vote counter moved by the vote's
    /// weight, everything else as it was.
    pub open spec fn voted(self, vote: Vote) -> StakeInfo {
        StakeInfo {
            apr: (self.apr + vote.rate_delta()) as u128,
            votes: (self.votes + vote.weight()) as i64,
            ..self
        }
    }

    /// Whether `vote` would take the rate below zero.
    pub open spec fn below_floor(self, vote: Vote) -> bool {
        self.apr + vote.rate_delta() < 0
    }

    /// Whether the rate and the vote counter after `vote` fit their types.
    pub open spec fn vote_fits(self, vote: Vote) -> bool {
        &&& self.apr + vote.rate_delta() <= u128::MAX
        &&& i64::MIN <= self.votes + vote.weight() <= i64::MAX
    }

    /// What [`StakeInfo::apply_vote`] returns.
    pub open spec fn vote_outcome(self, vote: Vote) -> Result<StakeInfo, LedgerError> {
        if self.below_floor(vote) {
            Err(LedgerError::RateFloorExceeded)
        } else if !self.vote_fits(vote) {
            Err(LedgerError::ArithmeticOverflow)
        } else {
            Ok(self.voted(vote))
        }
    }

    /// Applies `vote` to the rate and the vote counter. Fails with
    /// `RateFloorExceeded` where the rate would fall below zero, and with
    /// `ArithmeticOverflow` where the rate or the counter would leave its
    /// type. Reward and settlement time are not touched.
    pub fn apply_vote(&self, vote: Vote) -> (r: Result<StakeInfo, LedgerError>)
        ensures
            r == self.vote_outcome(vote),
    {
        let units: u8 = vote.magnitude();
        let delta: u128 = (units as u128) * RATE_UNIT;
        if vote.lowers() {
            if self.apr < delta {
                return Err(LedgerError::RateFloorExceeded);
            }
            match self.votes.checked_sub(units as i64) {
                Some(votes) => Ok(
                    StakeInfo {
                        time_settled: self.time_settled,
                        amount_staked: self.amount_staked,
                        settled_reward: self.settled_reward,
                        apr: self.apr - delta,
                        votes,
                    },
                ),
                None => Err(LedgerError::ArithmeticOverflow),
            }
        } else {
            let apr: u128 = match self.apr.checked_add(delta) {
                Some(apr) => apr,
                None => {
                    return Err(LedgerError::ArithmeticOverflow);
                },
            };
            match self.votes.checked_add(units as i64) {
                Some(votes) => Ok(
                    StakeInfo {
                        time_settled: self.time_settled,
                        amount_staked: self.amount_staked,
                        settled_reward: self.settled_reward,
                        apr,
                        votes,
                    },
                ),
                None => Err(LedgerError::ArithmeticOverflow),
            }
        }
    }
}

} // verus!
