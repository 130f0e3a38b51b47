use rwa_tokens::compliance::modules::initial_lockup_period::{
    debit_forced, get_locked_amount, get_locked_details, get_lockup_period, is_preset_completed,
    mark_preset_completed, migrate_locks, on_created, on_destroyed, on_transfer, preset_locks,
    set_lockup_period, InitialLockupPeriod, LockedTokens, MAX_LOCKS,
};
use rwa_tokens::compliance::modules::ComplianceModuleError;
use rwa_tokens::compliance::TransferKind;

const TOKEN: u64 = 1;
const FROM: u64 = 10;
const TO: u64 = 11;

fn lock(amount: i128, release_ledger: u32) -> LockedTokens {
    LockedTokens { amount, release_ledger }
}

#[test]
fn set_lockup_period_persists_value() {
    let mut s = InitialLockupPeriod::new();
    assert_eq!(get_lockup_period(&s, TOKEN), 0);
    set_lockup_period(&mut s, TOKEN, 17_280);
    assert_eq!(get_lockup_period(&s, TOKEN), 17_280);
}

#[test]
fn on_created_locks_minted_tokens() {
    let mut s = InitialLockupPeriod::new();
    set_lockup_period(&mut s, TOKEN, 100);
    on_created(&mut s, FROM, 80, TOKEN, 0).unwrap();
    let details = get_locked_details(&s, TOKEN, FROM);
    assert_eq!(details.total_locked, 80);
    assert_eq!(details.locks, vec![lock(80, 100)]);
    assert_eq!(get_locked_amount(&s, TOKEN, FROM, 0), 80);
}

#[test]
fn on_created_without_period_creates_no_lock() {
    let mut s = InitialLockupPeriod::new();
    on_created(&mut s, FROM, 80, TOKEN, 0).unwrap();
    let details = get_locked_details(&s, TOKEN, FROM);
    assert_eq!(details.total_locked, 0);
    assert_eq!(details.locks.len(), 0);
    assert_eq!(get_locked_amount(&s, TOKEN, FROM, 0), 0);
}

#[test]
fn on_created_zero_amount_creates_no_lock() {
    let mut s = InitialLockupPeriod::new();
    set_lockup_period(&mut s, TOKEN, 100);
    on_created(&mut s, FROM, 0, TOKEN, 0).unwrap();
    assert_eq!(get_locked_details(&s, TOKEN, FROM).locks.len(), 0);
    assert_eq!(get_locked_amount(&s, TOKEN, FROM, 0), 0);
}

#[test]
fn on_transfer_allows_free_portion_only() {
    let mut s = InitialLockupPeriod::new();
    preset_locks(&mut s, TOKEN, FROM, &vec![lock(100, 1_000)]).unwrap();
    on_transfer(&mut s, FROM, TO, 150, 50, TransferKind::Standard, TOKEN, 0).unwrap();
    assert_eq!(get_locked_details(&s, TOKEN, FROM).total_locked, 100);
}

#[test]
fn on_transfer_without_locks_succeeds() {
    let mut s = InitialLockupPeriod::new();
    on_created(&mut s, FROM, 80, TOKEN, 0).unwrap();
    on_transfer(&mut s, FROM, TO, 80, 30, TransferKind::Standard, TOKEN, 0).unwrap();
    let details = get_locked_details(&s, TOKEN, FROM);
    assert_eq!(details.total_locked, 0);
    assert_eq!(details.locks.len(), 0);
}

#[test]
fn on_transfer_consumes_expired_locks() {
    let mut s = InitialLockupPeriod::new();
    set_lockup_period(&mut s, TOKEN, 100);
    on_created(&mut s, FROM, 100, TOKEN, 0).unwrap();
    on_transfer(&mut s, FROM, TO, 100, 60, TransferKind::Standard, TOKEN, 100).unwrap();
    let details = get_locked_details(&s, TOKEN, FROM);
    assert_eq!(details.total_locked, 40);
    assert_eq!(details.locks, vec![lock(40, 100)]);
}

#[test]
fn on_transfer_consumes_locks_oldest_first() {
    let mut s = InitialLockupPeriod::new();
    set_lockup_period(&mut s, TOKEN, 100);
    on_created(&mut s, FROM, 50, TOKEN, 0).unwrap();
    on_created(&mut s, FROM, 50, TOKEN, 10).unwrap();
    on_transfer(&mut s, FROM, TO, 100, 70, TransferKind::Standard, TOKEN, 200).unwrap();
    let details = get_locked_details(&s, TOKEN, FROM);
    assert_eq!(details.total_locked, 30);
    assert_eq!(details.locks, vec![lock(30, 110)]);
}

#[test]
fn on_transfer_keeps_unexpired_locks_intact() {
    let mut s = InitialLockupPeriod::new();
    set_lockup_period(&mut s, TOKEN, 100);
    on_created(&mut s, FROM, 50, TOKEN, 0).unwrap();
    on_created(&mut s, FROM, 50, TOKEN, 50).unwrap();
    on_transfer(&mut s, FROM, TO, 100, 50, TransferKind::Standard, TOKEN, 120).unwrap();
    let details = get_locked_details(&s, TOKEN, FROM);
    assert_eq!(details.total_locked, 50);
    assert_eq!(details.locks, vec![lock(50, 150)]);
}

#[test]
fn on_transfer_panics_when_tokens_still_locked() {
    let mut s = InitialLockupPeriod::new();
    set_lockup_period(&mut s, TOKEN, 100);
    on_created(&mut s, FROM, 80, TOKEN, 0).unwrap();
    let r = on_transfer(&mut s, FROM, TO, 80, 1, TransferKind::Standard, TOKEN, 0);
    assert_eq!(r, Err(ComplianceModuleError::InsufficientUnlockedBalance));
    assert_eq!(r.unwrap_err().code(), 399);
    assert_eq!(get_locked_details(&s, TOKEN, FROM).total_locked, 80);
}

#[test]
fn on_transfer_delegated_cannot_spend_locked_tokens() {
    let mut s = InitialLockupPeriod::new();
    preset_locks(&mut s, TOKEN, FROM, &vec![lock(80, 1_000)]).unwrap();
    let r = on_transfer(&mut s, FROM, TO, 80, 1, TransferKind::Delegated(99), TOKEN, 0);
    assert_eq!(r, Err(ComplianceModuleError::InsufficientUnlockedBalance));
}

#[test]
fn on_transfer_panics_when_balance_insufficient() {
    let mut s = InitialLockupPeriod::new();
    let r = on_transfer(&mut s, FROM, TO, 5, 10, TransferKind::Standard, TOKEN, 0);
    assert_eq!(r, Err(ComplianceModuleError::InsufficientUnlockedBalance));
}

#[test]
fn on_transfer_forced_consumes_active_locks() {
    let mut s = InitialLockupPeriod::new();
    set_lockup_period(&mut s, TOKEN, 100);
    on_created(&mut s, FROM, 80, TOKEN, 0).unwrap();
    on_transfer(&mut s, FROM, TO, 80, 80, TransferKind::Forced, TOKEN, 0).unwrap();
    let details = get_locked_details(&s, TOKEN, FROM);
    assert_eq!(details.total_locked, 0);
    assert_eq!(details.locks.len(), 0);
}

#[test]
fn on_transfer_forced_uses_free_portion_first() {
    let mut s = InitialLockupPeriod::new();
    preset_locks(&mut s, TOKEN, FROM, &vec![lock(100, 1_000)]).unwrap();
    on_transfer(&mut s, FROM, TO, 150, 70, TransferKind::Forced, TOKEN, 0).unwrap();
    let details = get_locked_details(&s, TOKEN, FROM);
    assert_eq!(details.total_locked, 80);
    assert_eq!(details.locks, vec![lock(80, 1_000)]);
}

#[test]
fn debit_forced_consumes_oldest_first_across_expiry() {
    let mut s = InitialLockupPeriod::new();
    set_lockup_period(&mut s, TOKEN, 100);
    on_created(&mut s, FROM, 50, TOKEN, 0).unwrap();
    on_created(&mut s, FROM, 50, TOKEN, 10).unwrap();
    on_transfer(&mut s, FROM, TO, 100, 70, TransferKind::Forced, TOKEN, 10).unwrap();
    let details = get_locked_details(&s, TOKEN, FROM);
    assert_eq!(details.total_locked, 30);
    assert_eq!(details.locks, vec![lock(30, 110)]);
}

#[test]
fn debit_forced_within_free_portion_leaves_locks_untouched() {
    let mut s = InitialLockupPeriod::new();
    on_transfer(&mut s, FROM, TO, 80, 30, TransferKind::Forced, TOKEN, 0).unwrap();
    assert_eq!(get_locked_details(&s, TOKEN, FROM).locks.len(), 0);
    preset_locks(&mut s, TOKEN, FROM, &vec![lock(100, 1_000)]).unwrap();
    on_transfer(&mut s, FROM, TO, 150, 50, TransferKind::Forced, TOKEN, 0).unwrap();
    let details = get_locked_details(&s, TOKEN, FROM);
    assert_eq!(details.total_locked, 100);
    assert_eq!(details.locks, vec![lock(100, 1_000)]);
}

#[test]
fn debit_forced_carries_over_locks_past_the_consumed_amount() {
    let mut s = InitialLockupPeriod::new();
    preset_locks(&mut s, TOKEN, FROM, &vec![lock(40, 500), lock(60, 1_000)]).unwrap();
    on_transfer(&mut s, FROM, TO, 100, 40, TransferKind::Forced, TOKEN, 0).unwrap();
    let details = get_locked_details(&s, TOKEN, FROM);
    assert_eq!(details.total_locked, 60);
    assert_eq!(details.locks, vec![lock(60, 1_000)]);
}

#[test]
fn debit_forced_tolerates_lock_shortfall() {
    let mut s = InitialLockupPeriod::new();
    preset_locks(&mut s, TOKEN, FROM, &vec![lock(100, 1_000)]).unwrap();
    debit_forced(&mut s, TOKEN, FROM, 50, 50);
    assert_eq!(get_locked_details(&s, TOKEN, FROM).total_locked, 50);
}

#[test]
fn on_transfer_recovery_migrates_active_locks() {
    let mut s = InitialLockupPeriod::new();
    set_lockup_period(&mut s, TOKEN, 100);
    on_created(&mut s, FROM, 80, TOKEN, 0).unwrap();
    on_transfer(&mut s, FROM, TO, 80, 80, TransferKind::Recovery, TOKEN, 0).unwrap();
    let source = get_locked_details(&s, TOKEN, FROM);
    assert_eq!(source.total_locked, 0);
    assert_eq!(source.locks.len(), 0);
    let destination = get_locked_details(&s, TOKEN, TO);
    assert_eq!(destination.total_locked, 80);
    assert_eq!(destination.locks, vec![lock(80, 100)]);
}

#[test]
fn on_transfer_recovery_migrates_only_the_locked_portion() {
    let mut s = InitialLockupPeriod::new();
    preset_locks(&mut s, TOKEN, FROM, &vec![lock(100, 1_000)]).unwrap();
    on_transfer(&mut s, FROM, TO, 150, 150, TransferKind::Recovery, TOKEN, 0).unwrap();
    assert_eq!(get_locked_details(&s, TOKEN, FROM).total_locked, 0);
    let destination = get_locked_details(&s, TOKEN, TO);
    assert_eq!(destination.total_locked, 100);
    assert_eq!(destination.locks, vec![lock(100, 1_000)]);
}

#[test]
fn on_transfer_recovery_preserves_release_ledgers() {
    let mut s = InitialLockupPeriod::new();
    set_lockup_period(&mut s, TOKEN, 100);
    on_created(&mut s, FROM, 50, TOKEN, 0).unwrap();
    on_created(&mut s, FROM, 50, TOKEN, 10).unwrap();
    on_transfer(&mut s, FROM, TO, 100, 100, TransferKind::Recovery, TOKEN, 10).unwrap();
    let destination = get_locked_details(&s, TOKEN, TO);
    assert_eq!(destination.total_locked, 100);
    assert_eq!(destination.locks, vec![lock(50, 100), lock(50, 110)]);
}

#[test]
fn on_transfer_recovery_partial_amount_splits_lock() {
    let mut s = InitialLockupPeriod::new();
    preset_locks(&mut s, TOKEN, FROM, &vec![lock(100, 1_000)]).unwrap();
    on_transfer(&mut s, FROM, TO, 150, 70, TransferKind::Recovery, TOKEN, 0).unwrap();
    let source = get_locked_details(&s, TOKEN, FROM);
    assert_eq!(source.total_locked, 80);
    assert_eq!(source.locks, vec![lock(80, 1_000)]);
    let destination = get_locked_details(&s, TOKEN, TO);
    assert_eq!(destination.total_locked, 20);
    assert_eq!(destination.locks, vec![lock(20, 1_000)]);
}

#[test]
fn on_transfer_recovery_within_free_portion_leaves_locks_untouched() {
    let mut s = InitialLockupPeriod::new();
    preset_locks(&mut s, TOKEN, FROM, &vec![lock(100, 1_000)]).unwrap();
    on_transfer(&mut s, FROM, TO, 150, 50, TransferKind::Recovery, TOKEN, 0).unwrap();
    let source = get_locked_details(&s, TOKEN, FROM);
    assert_eq!(source.total_locked, 100);
    assert_eq!(source.locks, vec![lock(100, 1_000)]);
    assert_eq!(get_locked_details(&s, TOKEN, TO).locks.len(), 0);
}

#[test]
fn on_transfer_recovery_merges_with_destination_locks() {
    let mut s = InitialLockupPeriod::new();
    preset_locks(&mut s, TOKEN, TO, &vec![lock(30, 500)]).unwrap();
    preset_locks(&mut s, TOKEN, FROM, &vec![lock(100, 1_000)]).unwrap();
    on_transfer(&mut s, FROM, TO, 100, 100, TransferKind::Recovery, TOKEN, 0).unwrap();
    let destination = get_locked_details(&s, TOKEN, TO);
    assert_eq!(destination.total_locked, 130);
    assert_eq!(destination.locks, vec![lock(30, 500), lock(100, 1_000)]);
}

#[test]
fn on_transfer_recovery_without_locks_touches_nothing() {
    let mut s = InitialLockupPeriod::new();
    on_created(&mut s, FROM, 80, TOKEN, 0).unwrap();
    on_transfer(&mut s, FROM, TO, 80, 80, TransferKind::Recovery, TOKEN, 0).unwrap();
    assert_eq!(get_locked_details(&s, TOKEN, FROM).locks.len(), 0);
    assert_eq!(get_locked_details(&s, TOKEN, TO).locks.len(), 0);
}

#[test]
fn on_transfer_recovery_to_same_wallet_keeps_schedule() {
    let mut s = InitialLockupPeriod::new();
    set_lockup_period(&mut s, TOKEN, 100);
    on_created(&mut s, FROM, 80, TOKEN, 0).unwrap();
    on_transfer(&mut s, FROM, FROM, 80, 80, TransferKind::Recovery, TOKEN, 0).unwrap();
    let details = get_locked_details(&s, TOKEN, FROM);
    assert_eq!(details.total_locked, 80);
    assert_eq!(details.locks, vec![lock(80, 100)]);
}

#[test]
fn migrated_locks_still_enforced_on_destination() {
    let mut s = InitialLockupPeriod::new();
    set_lockup_period(&mut s, TOKEN, 100);
    on_created(&mut s, FROM, 80, TOKEN, 0).unwrap();
    on_transfer(&mut s, FROM, TO, 80, 80, TransferKind::Recovery, TOKEN, 0).unwrap();
    let r = on_transfer(&mut s, TO, FROM, 80, 1, TransferKind::Standard, TOKEN, 0);
    assert_eq!(r, Err(ComplianceModuleError::InsufficientUnlockedBalance));
}

#[test]
fn migrate_locks_panics_when_destination_aggregate_overflows() {
    let mut s = InitialLockupPeriod::new();
    preset_locks(&mut s, TOKEN, TO, &vec![lock(i128::MAX, 1_000)]).unwrap();
    preset_locks(&mut s, TOKEN, FROM, &vec![lock(100, 1_000)]).unwrap();
    let r = on_transfer(&mut s, FROM, TO, 100, 100, TransferKind::Recovery, TOKEN, 0);
    assert_eq!(r, Err(ComplianceModuleError::MathOverflow));
    assert_eq!(r.unwrap_err().code(), 391);
    assert_eq!(get_locked_details(&s, TOKEN, FROM).total_locked, 100);
    assert_eq!(get_locked_details(&s, TOKEN, TO).total_locked, i128::MAX);
}

#[test]
fn migrate_locks_tolerates_lock_shortfall() {
    let mut s = InitialLockupPeriod::new();
    preset_locks(&mut s, TOKEN, FROM, &vec![lock(100, 1_000)]).unwrap();
    migrate_locks(&mut s, TOKEN, FROM, TO, 50, 50).unwrap();
    assert_eq!(get_locked_details(&s, TOKEN, FROM).total_locked, 50);
    assert_eq!(get_locked_details(&s, TOKEN, TO).total_locked, 50);
}

#[test]
fn on_destroyed_consumes_expired_locks() {
    let mut s = InitialLockupPeriod::new();
    set_lockup_period(&mut s, TOKEN, 100);
    on_created(&mut s, FROM, 100, TOKEN, 0).unwrap();
    on_destroyed(&mut s, FROM, 100, 60, TOKEN, 100).unwrap();
    assert_eq!(get_locked_details(&s, TOKEN, FROM).total_locked, 40);
}

#[test]
fn on_destroyed_panics_when_tokens_still_locked() {
    let mut s = InitialLockupPeriod::new();
    set_lockup_period(&mut s, TOKEN, 100);
    on_created(&mut s, FROM, 80, TOKEN, 0).unwrap();
    let r = on_destroyed(&mut s, FROM, 80, 1, TOKEN, 0);
    assert_eq!(r, Err(ComplianceModuleError::InsufficientUnlockedBalance));
}

#[test]
fn test_on_created_panics_on_negative_amount() {
    let mut s = InitialLockupPeriod::new();
    let r = on_created(&mut s, FROM, -1, TOKEN, 0);
    assert_eq!(r, Err(ComplianceModuleError::InvalidAmount));
    assert_eq!(r.unwrap_err().code(), 390);
}

#[test]
fn get_locked_amount_excludes_expired() {
    let mut s = InitialLockupPeriod::new();
    preset_locks(&mut s, TOKEN, FROM, &vec![lock(30, 50), lock(20, 1_000)]).unwrap();
    assert_eq!(get_locked_amount(&s, TOKEN, FROM, 0), 50);
    assert_eq!(get_locked_amount(&s, TOKEN, FROM, 60), 20);
}

#[test]
fn preset_locks_writes_state() {
    let mut s = InitialLockupPeriod::new();
    let locks = vec![lock(40, 500)];
    preset_locks(&mut s, TOKEN, FROM, &locks).unwrap();
    let details = get_locked_details(&s, TOKEN, FROM);
    assert_eq!(details.total_locked, 40);
    assert_eq!(details.locks, locks);
    assert!(!is_preset_completed(&s, TOKEN));
}

#[test]
fn preset_locks_panics_on_negative_lock_amount() {
    let mut s = InitialLockupPeriod::new();
    let r = preset_locks(&mut s, TOKEN, FROM, &vec![lock(-1, 500)]);
    assert_eq!(r, Err(ComplianceModuleError::InvalidAmount));
    assert_eq!(get_locked_details(&s, TOKEN, FROM).locks.len(), 0);
}

#[test]
fn preset_locks_panics_after_preset_completed() {
    let mut s = InitialLockupPeriod::new();
    mark_preset_completed(&mut s, TOKEN);
    let r = preset_locks(&mut s, TOKEN, FROM, &Vec::new());
    assert_eq!(r, Err(ComplianceModuleError::PresetAlreadyCompleted));
    assert_eq!(r.unwrap_err().code(), 395);
}

#[test]
fn mark_preset_completed_flips_flag() {
    let mut s = InitialLockupPeriod::new();
    assert!(!is_preset_completed(&s, TOKEN));
    mark_preset_completed(&mut s, TOKEN);
    assert!(is_preset_completed(&s, TOKEN));
}

#[test]
fn on_created_rejects_past_lock_bound() {
    let mut s = InitialLockupPeriod::new();
    set_lockup_period(&mut s, TOKEN, 1_000);
    for i in 0..MAX_LOCKS {
        on_created(&mut s, FROM, 1, TOKEN, i).unwrap();
    }
    let r = on_created(&mut s, FROM, 1, TOKEN, MAX_LOCKS);
    assert_eq!(r, Err(ComplianceModuleError::LockBoundExceeded));
    assert_eq!(r.unwrap_err().code(), 400);
    assert_eq!(get_locked_details(&s, TOKEN, FROM).locks.len(), MAX_LOCKS as usize);
    // Once some locks have released, they are pruned and there is room again.
    on_created(&mut s, FROM, 1, TOKEN, 1_000).unwrap();
    assert_eq!(get_locked_details(&s, TOKEN, FROM).locks.len(), MAX_LOCKS as usize);
}

#[test]
fn recovery_conserves_locked_total_across_wallets() {
    let mut s = InitialLockupPeriod::new();
    preset_locks(&mut s, TOKEN, TO, &vec![lock(30, 500)]).unwrap();
    preset_locks(&mut s, TOKEN, FROM, &vec![lock(100, 1_000), lock(50, 2_000)]).unwrap();
    on_transfer(&mut s, FROM, TO, 150, 120, TransferKind::Recovery, TOKEN, 0).unwrap();
    let total = get_locked_details(&s, TOKEN, FROM).total_locked
        + get_locked_details(&s, TOKEN, TO).total_locked;
    assert_eq!(total, 180);
}

#[test]
fn transfer_spends_only_unlocked_tokens() {
    let mut s = InitialLockupPeriod::new();
    preset_locks(&mut s, TOKEN, FROM, &vec![lock(30, 50), lock(20, 1_000)]).unwrap();
    // Balance 60: free 10, expired 30, unexpired 20. At most 40 can move.
    assert_eq!(
        on_transfer(&mut s, FROM, TO, 60, 41, TransferKind::Standard, TOKEN, 60),
        Err(ComplianceModuleError::InsufficientUnlockedBalance)
    );
    on_transfer(&mut s, FROM, TO, 60, 40, TransferKind::Standard, TOKEN, 60).unwrap();
    assert_eq!(get_locked_details(&s, TOKEN, FROM).locks, vec![lock(20, 1_000)]);
}

#[test]
fn preset_locks_refuses_more_than_max_locks() {
    let mut s = InitialLockupPeriod::new();
    let too_many: Vec<LockedTokens> = (0..=MAX_LOCKS).map(|i| lock(1, i)).collect();
    let r = preset_locks(&mut s, TOKEN, FROM, &too_many);
    assert_eq!(r, Err(ComplianceModuleError::LockBoundExceeded));
    assert_eq!(get_locked_details(&s, TOKEN, FROM).locks.len(), 0);
    let at_cap: Vec<LockedTokens> = (0..MAX_LOCKS).map(|i| lock(1, i)).collect();
    preset_locks(&mut s, TOKEN, FROM, &at_cap).unwrap();
    let details = get_locked_details(&s, TOKEN, FROM);
    assert_eq!(details.locks.len(), MAX_LOCKS as usize);
    assert_eq!(details.total_locked, MAX_LOCKS as i128);
}
