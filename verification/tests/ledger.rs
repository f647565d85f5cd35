use stake_ledger::Contract;
use stake_ledger::LedgerError;
use stake_ledger::PendingTransfer;
use stake_ledger::StakeInfo;
use stake_ledger::TransferKind;
use stake_ledger::TransferOutcome;
use stake_ledger::Vote;
use stake_ledger::DEFAULT_APR;
use stake_ledger::RATE_UNIT;

const YEAR: u64 = 31_536_000;
const TOKEN: &str = "token.near";

fn staked_sum(ledger: &Contract) -> u128 {
    ledger
        .stakers()
        .iter()
        .map(|account| ledger.get_staked_amount(account).unwrap())
        .sum()
}

fn withdrawal(handle: u64, account: &str, amount: u128) -> PendingTransfer {
    PendingTransfer { handle, account: account.to_string(), amount, kind: TransferKind::Withdrawal }
}

fn payout(handle: u64, account: &str, amount: u128) -> PendingTransfer {
    PendingTransfer {
        handle,
        account: account.to_string(),
        amount,
        kind: TransferKind::RewardPayout,
    }
}

#[test]
fn new_ledger_has_nothing_staked() {
    let ledger = Contract::new(TOKEN);
    assert_eq!(ledger.token_address(), TOKEN);
    assert_eq!(ledger.total_stakers(), 0);
    assert_eq!(ledger.total_staked(), 0);
    assert_eq!(ledger.next_handle(), 0);
    assert!(ledger.stakers().is_empty());
    assert!(ledger.pending_transfers().is_empty());
    assert_eq!(ledger.record("alice.near"), None);
}

#[test]
fn host_nanoseconds_become_whole_seconds() {
    assert_eq!(Contract::now(0), 0);
    assert_eq!(Contract::now(999_999_999), 0);
    assert_eq!(Contract::now(1_000_000_000), 1);
    assert_eq!(Contract::now(1_700_000_000_123_456_789), 1_700_000_000);
    assert_eq!(Contract::now(u64::MAX), 18_446_744_073);
}

#[test]
fn first_deposit_opens_a_record() {
    let mut ledger = Contract::new(TOKEN);
    assert_eq!(ledger.deposit("alice.near", 1_000, 50), Ok(()));
    assert_eq!(ledger.record("alice.near"), Some(StakeInfo::open(1_000, 50)));
    assert_eq!(
        ledger.record("alice.near"),
        Some(StakeInfo {
            time_settled: 50,
            amount_staked: 1_000,
            settled_reward: 0,
            apr: DEFAULT_APR,
            votes: 0,
        })
    );
    assert_eq!(ledger.total_stakers(), 1);
    assert_eq!(ledger.total_staked(), 1_000);
    assert_eq!(ledger.get_staked_amount("alice.near"), Ok(1_000));
    assert!(ledger.pending_transfers().is_empty());
}

#[test]
fn later_deposit_settles_then_adds() {
    let mut ledger = Contract::new(TOKEN);
    ledger.deposit("alice.near", 1_000_000, 0).unwrap();
    assert_eq!(ledger.deposit("alice.near", 500_000, YEAR), Ok(()));
    assert_eq!(
        ledger.record("alice.near"),
        Some(StakeInfo {
            time_settled: YEAR,
            amount_staked: 1_500_000,
            settled_reward: 50_000,
            apr: DEFAULT_APR,
            votes: 0,
        })
    );
    assert_eq!(ledger.total_stakers(), 1);
    assert_eq!(ledger.total_staked(), 1_500_000);
    assert_eq!(ledger.pending_reward("alice.near", 2 * YEAR), Ok(125_000));
}

#[test]
fn zero_deposit_is_invalid() {
    let mut ledger = Contract::new(TOKEN);
    assert_eq!(ledger.deposit("alice.near", 0, 0), Err(LedgerError::InvalidAmount));
    assert_eq!(ledger.total_stakers(), 0);
    assert_eq!(ledger.record("alice.near"), None);
    ledger.deposit("alice.near", 5, 0).unwrap();
    assert_eq!(ledger.deposit("alice.near", 0, 1), Err(LedgerError::InvalidAmount));
    assert_eq!(ledger.record("alice.near"), Some(StakeInfo::open(5, 0)));
}

#[test]
fn deposit_that_overflows_the_total_is_refused() {
    let mut ledger = Contract::new(TOKEN);
    ledger.deposit("alice.near", u128::MAX - 10, 0).unwrap();
    assert_eq!(ledger.deposit("bob.near", 11, 0), Err(LedgerError::ArithmeticOverflow));
    assert_eq!(ledger.total_stakers(), 1);
    assert_eq!(ledger.record("bob.near"), None);
    assert_eq!(ledger.deposit("bob.near", 10, 0), Ok(()));
    assert_eq!(ledger.total_staked(), u128::MAX);
    assert_eq!(ledger.deposit("carol.near", 1, 0), Err(LedgerError::ArithmeticOverflow));
}

#[test]
fn deposit_is_refused_where_the_reward_cannot_be_settled() {
    let mut ledger = Contract::new(TOKEN);
    ledger.deposit("alice.near", 1 << 100, 10).unwrap();
    let before = ledger.record("alice.near");
    assert_eq!(ledger.deposit("alice.near", 1, YEAR), Err(LedgerError::ArithmeticOverflow));
    assert_eq!(ledger.deposit("alice.near", 1, 9), Err(LedgerError::ArithmeticOverflow));
    assert_eq!(ledger.record("alice.near"), before);
    assert_eq!(ledger.total_staked(), 1 << 100);
    assert_eq!(ledger.deposit("alice.near", 1, 10), Ok(()));
}

#[test]
fn total_staked_is_the_sum_over_all_records() {
    let mut ledger = Contract::new(TOKEN);
    assert_eq!(ledger.total_staked(), staked_sum(&ledger));
    ledger.deposit("a", 100, 0).unwrap();
    ledger.deposit("b", 250, 5).unwrap();
    ledger.deposit("a", 50, 10).unwrap();
    assert_eq!(ledger.total_staked(), 400);
    assert_eq!(ledger.total_staked(), staked_sum(&ledger));
    ledger.unstake_token("b", 200, 20).unwrap();
    assert_eq!(ledger.total_staked(), 200);
    assert_eq!(ledger.total_staked(), staked_sum(&ledger));
    assert_eq!(ledger.unstake_token("b", 51, 21), Err(LedgerError::InsufficientStake));
    assert_eq!(ledger.total_staked(), staked_sum(&ledger));
    ledger.deposit("c", 7, 30).unwrap();
    ledger.unstake_token("a", 150, 40).unwrap();
    ledger.update_apr("c", Vote::Increase, 50).unwrap();
    assert_eq!(ledger.total_staked(), 57);
    assert_eq!(ledger.total_staked(), staked_sum(&ledger));
    assert_eq!(ledger.on_transfer_outcome(0, false, 60), Ok(TransferOutcome::Compensated));
    assert_eq!(ledger.total_staked(), 257);
    assert_eq!(ledger.total_staked(), staked_sum(&ledger));
    assert_eq!(ledger.on_transfer_outcome(1, true, 70), Ok(TransferOutcome::Finalized));
    assert_eq!(ledger.total_staked(), 257);
    assert_eq!(ledger.total_staked(), staked_sum(&ledger));
}

#[test]
fn stakers_are_counted_once_and_never_uncounted() {
    let mut ledger = Contract::new(TOKEN);
    ledger.deposit("a", 100, 0).unwrap();
    ledger.deposit("b", 100, 0).unwrap();
    ledger.deposit("a", 100, 1).unwrap();
    assert_eq!(ledger.total_stakers(), 2);
    ledger.unstake_token("a", 200, 2).unwrap();
    assert_eq!(ledger.get_staked_amount("a"), Ok(0));
    assert_eq!(ledger.total_stakers(), 2);
    ledger.deposit("a", 1, 3).unwrap();
    assert_eq!(ledger.total_stakers(), 2);
    assert_eq!(ledger.stakers(), vec!["a".to_string(), "b".to_string()]);
}

#[test]
fn notification_from_the_token_ledger_stakes_the_amount() {
    let mut ledger = Contract::new(TOKEN);
    assert_eq!(ledger.ft_on_transfer(TOKEN, "alice.near", 1_000, "", 5), Ok(0));
    assert_eq!(ledger.record("alice.near"), Some(StakeInfo::open(1_000, 5)));
    assert_eq!(ledger.ft_on_transfer(TOKEN, "alice.near", 1, "stake", 5), Ok(0));
    assert_eq!(ledger.get_staked_amount("alice.near"), Ok(1_001));
    assert_eq!(ledger.total_staked(), 1_001);
}

#[test]
fn notification_from_anyone_else_is_unauthorized() {
    let mut ledger = Contract::new(TOKEN);
    assert_eq!(
        ledger.ft_on_transfer("alice.near", "alice.near", 1_000, "", 5),
        Err(LedgerError::UnauthorizedCaller)
    );
    assert_eq!(
        ledger.ft_on_transfer("token.nea", "alice.near", 0, "", 5),
        Err(LedgerError::UnauthorizedCaller)
    );
    assert_eq!(ledger.total_stakers(), 0);
    assert_eq!(ledger.total_staked(), 0);
    assert_eq!(ledger.record("alice.near"), None);
}

#[test]
fn notification_passes_on_why_a_deposit_is_refused() {
    let mut ledger = Contract::new(TOKEN);
    assert_eq!(
        ledger.ft_on_transfer(TOKEN, "alice.near", 0, "", 5),
        Err(LedgerError::InvalidAmount)
    );
    ledger.deposit("alice.near", u128::MAX, 0).unwrap();
    assert_eq!(
        ledger.ft_on_transfer(TOKEN, "bob.near", 1, "", 5),
        Err(LedgerError::ArithmeticOverflow)
    );
}

#[test]
fn withdrawal_settles_debits_and_files_the_transfer() {
    let mut ledger = Contract::new(TOKEN);
    ledger.deposit("alice.near", 1_000_000, 0).unwrap();
    assert_eq!(
        ledger.unstake_token("alice.near", 400_000, YEAR),
        Ok(withdrawal(0, "alice.near", 400_000))
    );
    assert_eq!(
        ledger.record("alice.near"),
        Some(StakeInfo {
            time_settled: YEAR,
            amount_staked: 600_000,
            settled_reward: 50_000,
            apr: DEFAULT_APR,
            votes: 0,
        })
    );
    assert_eq!(ledger.total_staked(), 600_000);
    assert_eq!(ledger.total_stakers(), 1);
    assert_eq!(ledger.pending_transfers(), vec![withdrawal(0, "alice.near", 400_000)]);
    assert_eq!(ledger.next_handle(), 1);
    assert_eq!(ledger.pending_reward("alice.near", 2 * YEAR), Ok(80_000));
}

#[test]
fn whole_principal_can_be_withdrawn_and_the_record_stays() {
    let mut ledger = Contract::new(TOKEN);
    ledger.deposit("alice.near", 1_000_000, 0).unwrap();
    assert_eq!(
        ledger.unstake_token("alice.near", 1_000_000, YEAR),
        Ok(withdrawal(0, "alice.near", 1_000_000))
    );
    assert_eq!(ledger.get_staked_amount("alice.near"), Ok(0));
    assert_eq!(ledger.pending_reward("alice.near", 5 * YEAR), Ok(50_000));
    assert_eq!(ledger.total_staked(), 0);
    assert_eq!(
        ledger.unstake_token("alice.near", 1, YEAR),
        Err(LedgerError::InsufficientStake)
    );
}

#[test]
fn withdrawal_refusals_come_in_order() {
    let mut ledger = Contract::new(TOKEN);
    assert_eq!(ledger.unstake_token("alice.near", 0, 0), Err(LedgerError::NoStake));
    assert_eq!(ledger.unstake_token("alice.near", 5, 0), Err(LedgerError::NoStake));
    ledger.deposit("alice.near", 1 << 100, 10).unwrap();
    assert_eq!(ledger.unstake_token("alice.near", 0, YEAR), Err(LedgerError::InvalidAmount));
    assert_eq!(
        ledger.unstake_token("alice.near", (1 << 100) + 1, YEAR),
        Err(LedgerError::InsufficientStake)
    );
    assert_eq!(
        ledger.unstake_token("alice.near", 1, YEAR),
        Err(LedgerError::ArithmeticOverflow)
    );
    assert_eq!(ledger.unstake_token("alice.near", 1, 9), Err(LedgerError::ArithmeticOverflow));
    assert_eq!(ledger.record("alice.near"), Some(StakeInfo::open(1 << 100, 10)));
    assert_eq!(ledger.total_staked(), 1 << 100);
    assert!(ledger.pending_transfers().is_empty());
}

#[test]
fn deposit_then_withdrawal_at_once_accrues_nothing() {
    let mut ledger = Contract::new(TOKEN);
    ledger.deposit("alice.near", 1_000_000, 0).unwrap();
    let owed_before = ledger.pending_reward("alice.near", YEAR);
    assert_eq!(owed_before, Ok(50_000));
    ledger.deposit("alice.near", 2_000_000, YEAR).unwrap();
    assert_eq!(ledger.pending_reward("alice.near", YEAR), owed_before);
    ledger.unstake_token("alice.near", 2_000_000, YEAR).unwrap();
    assert_eq!(ledger.pending_reward("alice.near", YEAR), owed_before);
    assert_eq!(ledger.get_staked_amount("alice.near"), Ok(1_000_000));

    ledger.deposit("bob.near", 77, 123).unwrap();
    assert_eq!(ledger.pending_reward("bob.near", 123), Ok(0));
    ledger.unstake_token("bob.near", 77, 123).unwrap();
    assert_eq!(ledger.pending_reward("bob.near", 123), Ok(0));
}

#[test]
fn claim_pays_the_whole_reward_and_resets_it() {
    let mut ledger = Contract::new(TOKEN);
    ledger.deposit("alice.near", 1_000_000, 0).unwrap();
    assert_eq!(ledger.claim_reward("alice.near", YEAR), Ok(payout(0, "alice.near", 50_000)));
    assert_eq!(
        ledger.record("alice.near"),
        Some(StakeInfo {
            time_settled: YEAR,
            amount_staked: 1_000_000,
            settled_reward: 0,
            apr: DEFAULT_APR,
            votes: 0,
        })
    );
    assert_eq!(ledger.total_staked(), 1_000_000);
    assert_eq!(ledger.pending_reward("alice.near", YEAR), Ok(0));
    assert_eq!(ledger.pending_transfers(), vec![payout(0, "alice.near", 50_000)]);
    assert_eq!(
        ledger.claim_reward("alice.near", YEAR + YEAR / 2),
        Ok(payout(1, "alice.near", 25_000))
    );
}

#[test]
fn claim_with_nothing_owed_is_no_reward() {
    let mut ledger = Contract::new(TOKEN);
    ledger.deposit("alice.near", 1_000_000, 0).unwrap();
    assert_eq!(ledger.claim_reward("alice.near", 0), Err(LedgerError::NoReward));
    assert_eq!(ledger.claim_reward("alice.near", 630), Err(LedgerError::NoReward));
    assert_eq!(ledger.record("alice.near"), Some(StakeInfo::open(1_000_000, 0)));
    assert!(ledger.pending_transfers().is_empty());
    assert_eq!(ledger.claim_reward("alice.near", 631), Ok(payout(0, "alice.near", 1)));
}

#[test]
fn claim_repeated_at_once_is_no_reward() {
    let mut ledger = Contract::new(TOKEN);
    ledger.deposit("alice.near", 1_000_000, 0).unwrap();
    ledger.claim_reward("alice.near", YEAR).unwrap();
    let after_first = ledger.record("alice.near");
    assert_eq!(ledger.claim_reward("alice.near", YEAR), Err(LedgerError::NoReward));
    assert_eq!(ledger.record("alice.near"), after_first);
    assert_eq!(ledger.pending_transfers().len(), 1);
}

#[test]
fn claim_refusals_come_in_order() {
    let mut ledger = Contract::new(TOKEN);
    assert_eq!(ledger.claim_reward("alice.near", 0), Err(LedgerError::NoStake));
    ledger.deposit("alice.near", 1 << 100, 10).unwrap();
    assert_eq!(ledger.claim_reward("alice.near", YEAR), Err(LedgerError::ArithmeticOverflow));
    assert_eq!(ledger.claim_reward("alice.near", 9), Err(LedgerError::ArithmeticOverflow));
    assert_eq!(ledger.claim_reward("alice.near", 10), Err(LedgerError::NoReward));
}

#[test]
fn queries_fail_without_a_record_and_change_nothing() {
    let mut ledger = Contract::new(TOKEN);
    assert_eq!(ledger.pending_reward("alice.near", 0), Err(LedgerError::NoStake));
    assert_eq!(ledger.get_staked_amount("alice.near"), Err(LedgerError::NoStake));
    ledger.deposit("alice.near", 1_000_000, 0).unwrap();
    assert_eq!(ledger.pending_reward("alice.near", YEAR), Ok(50_000));
    assert_eq!(ledger.pending_reward("alice.near", YEAR), Ok(50_000));
    assert_eq!(ledger.get_staked_amount("alice.near"), Ok(1_000_000));
    assert_eq!(ledger.record("alice.near"), Some(StakeInfo::open(1_000_000, 0)));
    assert_eq!(ledger.pending_reward("bob.near", YEAR), Err(LedgerError::NoStake));
}

#[test]
fn reward_query_reports_overflow() {
    let mut ledger = Contract::new(TOKEN);
    ledger.deposit("alice.near", 1 << 100, 10).unwrap();
    assert_eq!(ledger.pending_reward("alice.near", YEAR), Err(LedgerError::ArithmeticOverflow));
    assert_eq!(ledger.pending_reward("alice.near", 9), Err(LedgerError::ArithmeticOverflow));
    assert_eq!(ledger.pending_reward("alice.near", 10), Ok(0));
}

#[test]
fn vote_settles_at_the_old_rate_then_moves_it() {
    let mut ledger = Contract::new(TOKEN);
    ledger.deposit("alice.near", 1_000_000, 0).unwrap();
    assert_eq!(ledger.update_apr("alice.near", Vote::Increase, YEAR), Ok(()));
    assert_eq!(
        ledger.record("alice.near"),
        Some(StakeInfo {
            time_settled: YEAR,
            amount_staked: 1_000_000,
            settled_reward: 50_000,
            apr: DEFAULT_APR + RATE_UNIT,
            votes: 1,
        })
    );
    assert_eq!(ledger.pending_reward("alice.near", 2 * YEAR), Ok(101_000));
    assert_eq!(ledger.update_apr("alice.near", Vote::StrongDecrease, 2 * YEAR), Ok(()));
    assert_eq!(
        ledger.record("alice.near"),
        Some(StakeInfo {
            time_settled: 2 * YEAR,
            amount_staked: 1_000_000,
            settled_reward: 101_000,
            apr: DEFAULT_APR - RATE_UNIT,
            votes: -1,
        })
    );
    assert_eq!(ledger.pending_reward("alice.near", 3 * YEAR), Ok(150_000));
    assert_eq!(ledger.total_staked(), 1_000_000);
}

#[test]
fn neutral_vote_only_settles() {
    let mut ledger = Contract::new(TOKEN);
    ledger.deposit("alice.near", 1_000_000, 0).unwrap();
    assert_eq!(ledger.update_apr("alice.near", Vote::Neutral, YEAR), Ok(()));
    assert_eq!(
        ledger.record("alice.near"),
        Some(StakeInfo {
            time_settled: YEAR,
            amount_staked: 1_000_000,
            settled_reward: 50_000,
            apr: DEFAULT_APR,
            votes: 0,
        })
    );
}

#[test]
fn votes_that_would_take_the_rate_below_zero_are_refused() {
    let mut ledger = Contract::new(TOKEN);
    ledger.deposit("alice.near", 1_000_000, 0).unwrap();
    for i in 0..24u64 {
        assert_eq!(ledger.update_apr("alice.near", Vote::StrongDecrease, i), Ok(()));
    }
    assert_eq!(ledger.update_apr("alice.near", Vote::Decrease, 24), Ok(()));
    let before = ledger.record("alice.near").unwrap();
    assert_eq!(before.apr, RATE_UNIT);
    assert_eq!(before.votes, -49);
    assert_eq!(
        ledger.update_apr("alice.near", Vote::StrongDecrease, YEAR),
        Err(LedgerError::RateFloorExceeded)
    );
    assert_eq!(ledger.record("alice.near"), Some(before));
    assert_eq!(ledger.update_apr("alice.near", Vote::Decrease, 25), Ok(()));
    let at_zero = ledger.record("alice.near").unwrap();
    assert_eq!(at_zero.apr, 0);
    assert_eq!(at_zero.votes, -50);
    assert_eq!(
        ledger.update_apr("alice.near", Vote::Decrease, 26),
        Err(LedgerError::RateFloorExceeded)
    );
    assert_eq!(
        ledger.update_apr("alice.near", Vote::StrongDecrease, 26),
        Err(LedgerError::RateFloorExceeded)
    );
    assert_eq!(ledger.record("alice.near"), Some(at_zero));
    assert_eq!(ledger.pending_reward("alice.near", 50 * YEAR), Ok(at_zero.settled_reward));
}

#[test]
fn vote_refusals_come_in_order() {
    let mut ledger = Contract::new(TOKEN);
    assert_eq!(ledger.update_apr("alice.near", Vote::Increase, 0), Err(LedgerError::NoStake));
    ledger.deposit("alice.near", 1 << 100, 10).unwrap();
    assert_eq!(
        ledger.update_apr("alice.near", Vote::Increase, YEAR),
        Err(LedgerError::ArithmeticOverflow)
    );
    for i in 0..25u64 {
        assert_eq!(ledger.update_apr("alice.near", Vote::StrongDecrease, 10), Ok(()), "vote {}", i);
    }
    let at_zero = ledger.record("alice.near").unwrap();
    assert_eq!(at_zero.apr, 0);
    assert_eq!(
        ledger.update_apr("alice.near", Vote::Decrease, 5),
        Err(LedgerError::RateFloorExceeded)
    );
    assert_eq!(
        ledger.update_apr("alice.near", Vote::Neutral, 5),
        Err(LedgerError::ArithmeticOverflow)
    );
    assert_eq!(ledger.record("alice.near"), Some(at_zero));
}

#[test]
fn successful_transfer_is_forgotten() {
    let mut ledger = Contract::new(TOKEN);
    ledger.deposit("alice.near", 1_000_000, 0).unwrap();
    ledger.unstake_token("alice.near", 400_000, YEAR).unwrap();
    let before = ledger.record("alice.near");
    assert_eq!(ledger.on_transfer_outcome(0, true, 2 * YEAR), Ok(TransferOutcome::Finalized));
    assert!(ledger.pending_transfers().is_empty());
    assert_eq!(ledger.record("alice.near"), before);
    assert_eq!(ledger.total_staked(), 600_000);
    assert_eq!(ledger.on_transfer_outcome(0, true, 2 * YEAR), Ok(TransferOutcome::NotPending));
    assert_eq!(ledger.on_transfer_outcome(0, false, 2 * YEAR), Ok(TransferOutcome::NotPending));
    assert_eq!(ledger.record("alice.near"), before);
    assert_eq!(ledger.next_handle(), 1);
}

#[test]
fn failed_withdrawal_is_credited_back_to_the_principal() {
    let mut ledger = Contract::new(TOKEN);
    ledger.deposit("alice.near", 1_000_000, 0).unwrap();
    ledger.unstake_token("alice.near", 400_000, YEAR).unwrap();
    assert_eq!(ledger.on_transfer_outcome(0, false, 2 * YEAR), Ok(TransferOutcome::Compensated));
    assert_eq!(
        ledger.record("alice.near"),
        Some(StakeInfo {
            time_settled: 2 * YEAR,
            amount_staked: 1_000_000,
            settled_reward: 80_000,
            apr: DEFAULT_APR,
            votes: 0,
        })
    );
    assert_eq!(ledger.total_staked(), 1_000_000);
    assert!(ledger.pending_transfers().is_empty());
    assert_eq!(ledger.on_transfer_outcome(0, false, 2 * YEAR), Ok(TransferOutcome::NotPending));
    assert_eq!(ledger.total_staked(), 1_000_000);
}

#[test]
fn failed_payout_is_credited_back_to_the_reward() {
    let mut ledger = Contract::new(TOKEN);
    ledger.deposit("alice.near", 1_000_000, 0).unwrap();
    ledger.claim_reward("alice.near", YEAR).unwrap();
    assert_eq!(ledger.on_transfer_outcome(0, false, 2 * YEAR), Ok(TransferOutcome::Compensated));
    assert_eq!(
        ledger.record("alice.near"),
        Some(StakeInfo {
            time_settled: YEAR,
            amount_staked: 1_000_000,
            settled_reward: 50_000,
            apr: DEFAULT_APR,
            votes: 0,
        })
    );
    assert_eq!(ledger.pending_reward("alice.near", 2 * YEAR), Ok(100_000));
    assert_eq!(ledger.total_staked(), 1_000_000);
    assert!(ledger.pending_transfers().is_empty());
}

#[test]
fn outcome_for_an_unknown_handle_changes_nothing() {
    let mut ledger = Contract::new(TOKEN);
    ledger.deposit("alice.near", 1_000_000, 0).unwrap();
    ledger.unstake_token("alice.near", 1, 0).unwrap();
    assert_eq!(ledger.on_transfer_outcome(1, false, 5), Ok(TransferOutcome::NotPending));
    assert_eq!(ledger.on_transfer_outcome(u64::MAX, true, 5), Ok(TransferOutcome::NotPending));
    assert_eq!(ledger.pending_transfers(), vec![withdrawal(0, "alice.near", 1)]);
    assert_eq!(ledger.total_staked(), 999_999);
}

#[test]
fn refund_that_cannot_be_made_keeps_the_transfer_pending() {
    let mut ledger = Contract::new(TOKEN);
    ledger.deposit("alice.near", 100, 0).unwrap();
    ledger.unstake_token("alice.near", 60, 0).unwrap();
    ledger.deposit("bob.near", u128::MAX - 40, 0).unwrap();
    assert_eq!(
        ledger.on_transfer_outcome(0, false, 0),
        Err(LedgerError::ArithmeticOverflow)
    );
    assert_eq!(ledger.pending_transfers(), vec![withdrawal(0, "alice.near", 60)]);
    assert_eq!(ledger.get_staked_amount("alice.near"), Ok(40));
    assert_eq!(ledger.total_staked(), u128::MAX);
    assert_eq!(
        ledger.on_transfer_outcome(0, false, u64::MAX),
        Err(LedgerError::ArithmeticOverflow)
    );
    assert_eq!(ledger.on_transfer_outcome(0, true, 0), Ok(TransferOutcome::Finalized));
}

#[test]
fn withdrawal_refund_is_refused_when_the_clock_went_back() {
    let mut ledger = Contract::new(TOKEN);
    ledger.deposit("alice.near", 100, 0).unwrap();
    ledger.unstake_token("alice.near", 60, 50).unwrap();
    assert_eq!(
        ledger.on_transfer_outcome(0, false, 49),
        Err(LedgerError::ArithmeticOverflow)
    );
    assert_eq!(ledger.get_staked_amount("alice.near"), Ok(40));
    assert_eq!(ledger.on_transfer_outcome(0, false, 50), Ok(TransferOutcome::Compensated));
    assert_eq!(ledger.get_staked_amount("alice.near"), Ok(100));
}

#[test]
fn payout_refund_that_overflows_the_reward_is_refused() {
    let mut ledger = Contract::resume(TOKEN, 1);
    assert!(ledger.reinstate_record(
        "alice.near",
        StakeInfo {
            time_settled: 0,
            amount_staked: 0,
            settled_reward: u128::MAX,
            apr: DEFAULT_APR,
            votes: 0,
        }
    ));
    assert!(ledger.reinstate_transfer(payout(0, "alice.near", 1)));
    assert_eq!(
        ledger.on_transfer_outcome(0, false, 0),
        Err(LedgerError::ArithmeticOverflow)
    );
    assert_eq!(ledger.pending_transfers(), vec![payout(0, "alice.near", 1)]);
}

#[test]
fn transfers_are_refused_once_handles_run_out() {
    let mut ledger = Contract::resume(TOKEN, u64::MAX);
    ledger.deposit("alice.near", 1_000_000, 0).unwrap();
    assert_eq!(
        ledger.unstake_token("alice.near", 1, YEAR),
        Err(LedgerError::ArithmeticOverflow)
    );
    assert_eq!(ledger.claim_reward("alice.near", YEAR), Err(LedgerError::ArithmeticOverflow));
    assert_eq!(ledger.record("alice.near"), Some(StakeInfo::open(1_000_000, 0)));
    assert_eq!(ledger.total_staked(), 1_000_000);
}

#[test]
fn ledger_can_be_rebuilt_from_what_it_holds() {
    let mut ledger = Contract::new(TOKEN);
    ledger.deposit("alice.near", 1_000_000, 0).unwrap();
    ledger.deposit("bob.near", 500, 10).unwrap();
    ledger.unstake_token("alice.near", 400_000, YEAR).unwrap();
    ledger.claim_reward("alice.near", 2 * YEAR).unwrap();
    ledger.on_transfer_outcome(0, true, 2 * YEAR).unwrap();
    ledger.update_apr("bob.near", Vote::StrongIncrease, 2 * YEAR).unwrap();

    let mut rebuilt = Contract::resume(&ledger.token_address(), ledger.next_handle());
    for account in ledger.stakers() {
        assert!(rebuilt.reinstate_record(&account, ledger.record(&account).unwrap()));
    }
    for intent in ledger.pending_transfers() {
        assert!(rebuilt.reinstate_transfer(intent));
    }
    assert_eq!(rebuilt.token_address(), ledger.token_address());
    assert_eq!(rebuilt.total_stakers(), 2);
    assert_eq!(rebuilt.total_staked(), ledger.total_staked());
    assert_eq!(rebuilt.total_staked(), 600_500);
    assert_eq!(rebuilt.stakers(), ledger.stakers());
    assert_eq!(rebuilt.record("alice.near"), ledger.record("alice.near"));
    assert_eq!(rebuilt.record("bob.near"), ledger.record("bob.near"));
    assert_eq!(rebuilt.pending_transfers(), vec![payout(1, "alice.near", 80_000)]);
    assert_eq!(rebuilt.next_handle(), 2);
    assert_eq!(
        rebuilt.unstake_token("bob.near", 1, 2 * YEAR),
        Ok(withdrawal(2, "bob.near", 1))
    );
}

#[test]
fn record_is_taken_in_once_and_only_where_the_total_has_room() {
    let mut ledger = Contract::resume(TOKEN, 0);
    let record = StakeInfo {
        time_settled: 9,
        amount_staked: u128::MAX - 5,
        settled_reward: 4,
        apr: 3,
        votes: -2,
    };
    assert!(ledger.reinstate_record("alice.near", record));
    assert!(!ledger.reinstate_record("alice.near", StakeInfo::open(1, 0)));
    assert!(!ledger.reinstate_record("bob.near", StakeInfo::open(6, 0)));
    assert_eq!(ledger.record("alice.near"), Some(record));
    assert_eq!(ledger.record("bob.near"), None);
    assert_eq!(ledger.total_stakers(), 1);
    assert_eq!(ledger.total_staked(), u128::MAX - 5);
    assert!(ledger.reinstate_record("bob.near", StakeInfo::open(5, 0)));
    assert_eq!(ledger.total_stakers(), 2);
    assert_eq!(ledger.total_staked(), u128::MAX);
}

#[test]
fn transfer_is_taken_in_only_for_a_known_account_and_a_free_handle() {
    let mut ledger = Contract::resume(TOKEN, 3);
    ledger.deposit("alice.near", 10, 0).unwrap();
    assert!(!ledger.reinstate_transfer(withdrawal(0, "bob.near", 5)));
    assert!(!ledger.reinstate_transfer(withdrawal(3, "alice.near", 5)));
    assert!(ledger.reinstate_transfer(withdrawal(2, "alice.near", 5)));
    assert!(!ledger.reinstate_transfer(payout(2, "alice.near", 1)));
    assert_eq!(ledger.pending_transfers(), vec![withdrawal(2, "alice.near", 5)]);
    assert_eq!(ledger.next_handle(), 3);
    assert_eq!(ledger.total_staked(), 10);
    assert_eq!(ledger.on_transfer_outcome(2, false, 0), Ok(TransferOutcome::Compensated));
    assert_eq!(ledger.get_staked_amount("alice.near"), Ok(15));
    assert_eq!(ledger.total_staked(), 15);
}

#[test]
fn every_error_has_its_reason() {
    assert_eq!(LedgerError::InvalidAmount.message(), "Stake: Invalid amount!");
    assert_eq!(LedgerError::NoStake.message(), "Stake: You didn't stake any tokens!");
    assert_eq!(
        LedgerError::InsufficientStake.message(),
        "Stake: You staked less token than amount"
    );
    assert_eq!(LedgerError::NoReward.message(), "Stake: You have no reward yet!");
    assert_eq!(
        LedgerError::RateFloorExceeded.message(),
        "Stake: Vote would take the rate below zero"
    );
    assert_eq!(LedgerError::ArithmeticOverflow.message(), "Stake: Arithmetic overflow");
    assert_eq!(LedgerError::UnauthorizedCaller.message(), "Stake: Caller is not authorized");
}
