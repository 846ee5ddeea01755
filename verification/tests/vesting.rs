use token_vesting::{TokenVesting, VestingError, VestingSchedule};

fn schedule(total: u128, start: u64, end: u64) -> VestingSchedule {
    VestingSchedule { total_amount: total, released_amount: 0, start_time: start, end_time: end }
}

#[test]
fn nothing_vested_at_start_everything_at_end() {
    let ledger = TokenVesting::new();
    let s = schedule(1000, 20, 120);
    assert_eq!(ledger.calculate_vested_amount(&s, 20), 0);
    assert_eq!(ledger.calculate_vested_amount(&s, 120), 1000);
}

#[test]
fn vested_amount_is_zero_before_window_and_total_after() {
    let ledger = TokenVesting::new();
    let s = schedule(1000, 20, 120);
    assert_eq!(ledger.calculate_vested_amount(&s, 0), 0);
    assert_eq!(ledger.calculate_vested_amount(&s, u64::MAX), 1000);
}

#[test]
fn vested_amount_is_monotone_in_time() {
    let ledger = TokenVesting::new();
    let s = schedule(997, 10, 1000);
    let mut previous = 0u128;
    let mut t = 0u64;
    while t <= 1100 {
        let v = ledger.calculate_vested_amount(&s, t);
        assert!(previous <= v);
        previous = v;
        t += 7;
    }
}

#[test]
fn linear_midpoint() {
    let ledger = TokenVesting::new();
    let s = schedule(1000, 0, 100);
    assert_eq!(ledger.calculate_vested_amount(&s, 50), 500);
}

#[test]
fn interpolation_rounds_down() {
    let ledger = TokenVesting::new();
    let s = schedule(1000, 0, 3);
    // floor(1000 * 1 / 3) and floor(1000 * 2 / 3)
    assert_eq!(ledger.calculate_vested_amount(&s, 1), 333);
    assert_eq!(ledger.calculate_vested_amount(&s, 2), 666);
}

#[test]
fn huge_total_does_not_overflow() {
    let ledger = TokenVesting::new();
    let total = 1u128 << 127;
    let s = schedule(total, 0, 4);
    // 3/4 of 2^127 exactly: a naive 128-bit product of total and elapsed
    // time would overflow here.
    assert_eq!(ledger.calculate_vested_amount(&s, 3), 3u128 << 125);
    assert_eq!(ledger.calculate_vested_amount(&s, 4), total);
}

#[test]
fn deposit_records_the_schedule() {
    let mut ledger = TokenVesting::new();
    assert_eq!(ledger.get_vesting_schedule(&"alice.near".to_string()), None);
    let r = ledger.deposit("alice.near".to_string(), 1000, 5, 105);
    assert_eq!(r, Ok(()));
    assert_eq!(
        ledger.get_vesting_schedule(&"alice.near".to_string()),
        Some(schedule(1000, 5, 105))
    );
    assert_eq!(ledger.get_vesting_schedule(&"bob.near".to_string()), None);
}

#[test]
fn deposit_rejects_bad_parameters() {
    let mut ledger = TokenVesting::new();
    let r = ledger.deposit("alice.near".to_string(), 1000, 100, 100);
    assert_eq!(r, Err(VestingError::InvalidTimeRange));
    let r = ledger.deposit("alice.near".to_string(), 1000, 100, 50);
    assert_eq!(r, Err(VestingError::InvalidTimeRange));
    let r = ledger.deposit("alice.near".to_string(), 0, 0, 100);
    assert_eq!(r, Err(VestingError::ZeroAmount));
    assert_eq!(ledger.get_vesting_schedule(&"alice.near".to_string()), None);
}

#[test]
fn operations_fail_for_unknown_beneficiary() {
    let mut ledger = TokenVesting::new();
    let bob = "bob.near".to_string();
    assert_eq!(ledger.withdraw(&bob, 50), Err(VestingError::UnknownBeneficiary));
    assert_eq!(ledger.partial_withdraw(&bob, 1, 50), Err(VestingError::UnknownBeneficiary));
    assert_eq!(ledger.get_remaining_amount(&bob, 50), Err(VestingError::UnknownBeneficiary));
}

#[test]
fn withdraw_before_start_fails() {
    let mut ledger = TokenVesting::new();
    let alice = "alice.near".to_string();
    ledger.deposit(alice.clone(), 1000, 50, 150).unwrap();
    assert_eq!(ledger.withdraw(&alice, 49), Err(VestingError::VestingNotStarted));
    assert_eq!(ledger.partial_withdraw(&alice, 1, 49), Err(VestingError::VestingNotStarted));
}

#[test]
fn immediate_withdraw_at_start_fails() {
    let mut ledger = TokenVesting::new();
    let alice = "alice.near".to_string();
    ledger.deposit(alice.clone(), 1000, 0, 100).unwrap();
    assert_eq!(ledger.withdraw(&alice, 0), Err(VestingError::NothingWithdrawable));
}

#[test]
fn full_withdraw_at_end_releases_everything_once() {
    let mut ledger = TokenVesting::new();
    let alice = "alice.near".to_string();
    ledger.deposit(alice.clone(), 1000, 0, 100).unwrap();
    assert_eq!(ledger.withdraw(&alice, 100), Ok(1000));
    assert_eq!(ledger.withdraw(&alice, 100), Err(VestingError::NothingWithdrawable));
    let s = ledger.get_vesting_schedule(&alice).unwrap();
    assert_eq!(s.released_amount, 1000);
}

#[test]
fn partial_withdraw_tracks_the_releasable_amount() {
    let mut ledger = TokenVesting::new();
    let alice = "alice.near".to_string();
    ledger.deposit(alice.clone(), 1000, 0, 100).unwrap();
    // At time 40, 400 have vested: withdrawing 300 succeeds.
    assert_eq!(ledger.partial_withdraw(&alice, 300, 40), Ok(300));
    assert_eq!(ledger.get_vesting_schedule(&alice).unwrap().released_amount, 300);
    // Only 100 remain releasable at the same instant.
    assert_eq!(ledger.partial_withdraw(&alice, 200, 40), Err(VestingError::ExceedsReleasable));
    // The remaining 700 come out at the end.
    assert_eq!(ledger.withdraw(&alice, 100), Ok(700));
}

#[test]
fn remaining_amount_follows_the_schedule() {
    let mut ledger = TokenVesting::new();
    let alice = "alice.near".to_string();
    ledger.deposit(alice.clone(), 1000, 0, 100).unwrap();
    assert_eq!(ledger.get_remaining_amount(&alice, 0), Ok(0));
    assert_eq!(ledger.get_remaining_amount(&alice, 40), Ok(400));
    assert_eq!(ledger.partial_withdraw(&alice, 300, 40), Ok(300));
    assert_eq!(ledger.get_remaining_amount(&alice, 40), Ok(100));
    assert_eq!(ledger.get_remaining_amount(&alice, 100), Ok(700));
}

#[test]
fn remaining_amount_is_zero_right_after_a_full_withdraw() {
    let mut ledger = TokenVesting::new();
    let alice = "alice.near".to_string();
    ledger.deposit(alice.clone(), 1000, 0, 100).unwrap();
    assert_eq!(ledger.withdraw(&alice, 60), Ok(600));
    assert_eq!(ledger.get_remaining_amount(&alice, 60), Ok(0));
}

#[test]
fn redeposit_replaces_the_schedule_wholly() {
    let mut ledger = TokenVesting::new();
    let alice = "alice.near".to_string();
    ledger.deposit(alice.clone(), 1000, 0, 100).unwrap();
    assert_eq!(ledger.partial_withdraw(&alice, 300, 40), Ok(300));
    // The second deposit discards the first schedule's progress: nothing of
    // the 300 already released carries over.
    ledger.deposit(alice.clone(), 500, 10, 110).unwrap();
    assert_eq!(ledger.get_vesting_schedule(&alice), Some(schedule(500, 10, 110)));
    assert_eq!(ledger.get_remaining_amount(&alice, 110), Ok(500));
}

#[test]
fn ledgers_keep_beneficiaries_apart() {
    let mut ledger = TokenVesting::new();
    let alice = "alice.near".to_string();
    let bob = "bob.near".to_string();
    ledger.deposit(alice.clone(), 1000, 0, 100).unwrap();
    ledger.deposit(bob.clone(), 600, 0, 60).unwrap();
    assert_eq!(ledger.withdraw(&bob, 30), Ok(300));
    assert_eq!(ledger.get_vesting_schedule(&alice).unwrap().released_amount, 0);
    assert_eq!(ledger.get_remaining_amount(&alice, 30), Ok(300));
}
