use rwa_tokens::compliance::modules::contracts::time_transfers_limits_module::{
    Limit, TimeTransfersLimitsModule, MAX_LIMITS_PER_TOKEN,
};
use rwa_tokens::compliance::modules::contracts::{ContractError, ModuleError};
use rwa_tokens::compliance::modules::test_utils::MockIRS;
use rwa_tokens::compliance::modules::time_transfers_limits::{
    batch_remove_time_transfer_limit, batch_set_time_transfer_limit, can_transfer,
    get_time_transfer_limits, get_transfer_counter, on_transfer, remove_time_transfer_limit,
    set_time_transfer_limit, TimeTransfersLimits, TransferCounter, TransferLimit, MAX_LIMITS,
};
use rwa_tokens::compliance::modules::{ComplianceModuleError, HookError};
use rwa_tokens::compliance::TransferKind;

const TOKEN: u64 = 1;
const TOKEN_B: u64 = 2;
const COMPLIANCE: u64 = 3;
const IRS: u64 = 4;
const FROM: u64 = 10;
const TO: u64 = 11;

fn limit(limit_duration: u32, limit_value: i128) -> TransferLimit {
    TransferLimit { limit_duration, limit_value }
}

fn module_err(e: ComplianceModuleError) -> HookError {
    HookError::Module(e)
}

#[test]
fn set_time_transfer_limit_adds_and_updates_entries() {
    let mut s = TimeTransfersLimits::new();
    set_time_transfer_limit(&mut s, TOKEN, limit(100, 50)).unwrap();
    set_time_transfer_limit(&mut s, TOKEN, limit(200, 80)).unwrap();
    set_time_transfer_limit(&mut s, TOKEN, limit(100, 60)).unwrap();
    assert_eq!(get_time_transfer_limits(&s, TOKEN), vec![limit(100, 60), limit(200, 80)]);
}

#[test]
fn set_time_transfer_limit_panics_at_bound() {
    let mut s = TimeTransfersLimits::new();
    for d in 1..=MAX_LIMITS {
        set_time_transfer_limit(&mut s, TOKEN, limit(d, 50)).unwrap();
    }
    let r = set_time_transfer_limit(&mut s, TOKEN, limit(MAX_LIMITS + 1, 50));
    assert_eq!(r, Err(ComplianceModuleError::LimitBoundExceeded));
    assert_eq!(r.unwrap_err().code(), 402);
    assert_eq!(get_time_transfer_limits(&s, TOKEN).len(), MAX_LIMITS as usize);
}

#[test]
fn set_time_transfer_limit_updates_existing_at_bound() {
    let mut s = TimeTransfersLimits::new();
    for d in 1..=MAX_LIMITS {
        set_time_transfer_limit(&mut s, TOKEN, limit(d, 50)).unwrap();
    }
    set_time_transfer_limit(&mut s, TOKEN, limit(MAX_LIMITS, 99)).unwrap();
    let limits = get_time_transfer_limits(&s, TOKEN);
    assert_eq!(limits.len(), MAX_LIMITS as usize);
    assert_eq!(limits[MAX_LIMITS as usize - 1], limit(MAX_LIMITS, 99));
}

#[test]
fn set_time_transfer_limit_panics_on_negative_value() {
    let mut s = TimeTransfersLimits::new();
    let r = set_time_transfer_limit(&mut s, TOKEN, limit(100, -1));
    assert_eq!(r, Err(ComplianceModuleError::InvalidAmount));
    assert_eq!(r.unwrap_err().code(), 390);
}

#[test]
fn remove_time_transfer_limit_removes_entry() {
    let mut s = TimeTransfersLimits::new();
    set_time_transfer_limit(&mut s, TOKEN, limit(100, 50)).unwrap();
    set_time_transfer_limit(&mut s, TOKEN, limit(200, 80)).unwrap();
    remove_time_transfer_limit(&mut s, TOKEN, 100).unwrap();
    assert_eq!(get_time_transfer_limits(&s, TOKEN), vec![limit(200, 80)]);
}

#[test]
fn remove_time_transfer_limit_panics_when_missing() {
    let mut s = TimeTransfersLimits::new();
    let r = remove_time_transfer_limit(&mut s, TOKEN, 100);
    assert_eq!(r, Err(ComplianceModuleError::LimitNotFound));
    assert_eq!(r.unwrap_err().code(), 403);
}

#[test]
fn batch_set_and_remove_time_transfer_limits() {
    let mut s = TimeTransfersLimits::new();
    batch_set_time_transfer_limit(&mut s, TOKEN, &vec![limit(100, 50), limit(200, 80)]).unwrap();
    assert_eq!(get_time_transfer_limits(&s, TOKEN).len(), 2);
    batch_remove_time_transfer_limit(&mut s, TOKEN, &vec![100, 200]).unwrap();
    assert_eq!(get_time_transfer_limits(&s, TOKEN).len(), 0);
}

#[test]
fn on_transfer_panics_when_amount_alone_exceeds_cap() {
    let irs = MockIRS::at(IRS);
    let mut s = TimeTransfersLimits::new();
    set_time_transfer_limit(&mut s, TOKEN, limit(100, 50)).unwrap();
    let r = on_transfer(&mut s, FROM, TO, 51, TransferKind::Standard, TOKEN, Some(&irs), 0);
    assert_eq!(r, Err(module_err(ComplianceModuleError::TransferLimitExceeded)));
    assert_eq!(ComplianceModuleError::TransferLimitExceeded.code(), 401);
}

#[test]
fn on_transfer_forced_skips_check_and_counters() {
    let irs = MockIRS::at(IRS);
    let mut s = TimeTransfersLimits::new();
    set_time_transfer_limit(&mut s, TOKEN, limit(100, 50)).unwrap();
    on_transfer(&mut s, FROM, TO, 9_999, TransferKind::Forced, TOKEN, Some(&irs), 0).unwrap();
    assert_eq!(get_transfer_counter(&s, TOKEN, FROM, 100).value, 0);
}

#[test]
fn on_transfer_increments_counters_for_each_window() {
    let irs = MockIRS::at(IRS);
    let mut s = TimeTransfersLimits::new();
    set_time_transfer_limit(&mut s, TOKEN, limit(100, 50)).unwrap();
    set_time_transfer_limit(&mut s, TOKEN, limit(200, 80)).unwrap();
    on_transfer(&mut s, FROM, TO, 30, TransferKind::Standard, TOKEN, Some(&irs), 0).unwrap();
    assert_eq!(
        get_transfer_counter(&s, TOKEN, FROM, 100),
        TransferCounter { value: 30, deadline: 100 }
    );
    assert_eq!(
        get_transfer_counter(&s, TOKEN, FROM, 200),
        TransferCounter { value: 30, deadline: 200 }
    );
}

#[test]
fn on_transfer_aggregates_volume_per_identity() {
    let (wallet_a, wallet_b, identity) = (20, 21, 100);
    let mut irs = MockIRS::at(IRS);
    irs.mock_set_identity(wallet_a, identity);
    irs.mock_set_identity(wallet_b, identity);
    let mut s = TimeTransfersLimits::new();
    set_time_transfer_limit(&mut s, TOKEN, limit(100, 50)).unwrap();
    on_transfer(&mut s, wallet_a, TO, 30, TransferKind::Standard, TOKEN, Some(&irs), 0).unwrap();
    assert_eq!(get_transfer_counter(&s, TOKEN, identity, 100).value, 30);
    on_transfer(&mut s, wallet_b, TO, 20, TransferKind::Standard, TOKEN, Some(&irs), 0).unwrap();
    assert_eq!(get_transfer_counter(&s, TOKEN, identity, 100).value, 50);
}

#[test]
fn on_transfer_restarts_elapsed_window() {
    let irs = MockIRS::at(IRS);
    let mut s = TimeTransfersLimits::new();
    set_time_transfer_limit(&mut s, TOKEN, limit(100, 50)).unwrap();
    on_transfer(&mut s, FROM, TO, 50, TransferKind::Standard, TOKEN, Some(&irs), 0).unwrap();
    on_transfer(&mut s, FROM, TO, 10, TransferKind::Standard, TOKEN, Some(&irs), 150).unwrap();
    assert_eq!(
        get_transfer_counter(&s, TOKEN, FROM, 100),
        TransferCounter { value: 10, deadline: 250 }
    );
}

#[test]
fn on_transfer_skips_when_no_limits_configured() {
    let mut s = TimeTransfersLimits::new();
    on_transfer::<MockIRS>(&mut s, FROM, TO, 100, TransferKind::Standard, TOKEN, None, 0).unwrap();
    assert_eq!(get_transfer_counter(&s, TOKEN, FROM, 100).value, 0);
}

#[test]
fn on_transfer_panics_when_limit_exceeded() {
    let irs = MockIRS::at(IRS);
    let mut s = TimeTransfersLimits::new();
    set_time_transfer_limit(&mut s, TOKEN, limit(100, 50)).unwrap();
    on_transfer(&mut s, FROM, TO, 30, TransferKind::Standard, TOKEN, Some(&irs), 0).unwrap();
    let r = on_transfer(&mut s, FROM, TO, 21, TransferKind::Standard, TOKEN, Some(&irs), 0);
    assert_eq!(r, Err(module_err(ComplianceModuleError::TransferLimitExceeded)));
    assert_eq!(get_transfer_counter(&s, TOKEN, FROM, 100).value, 30);
}

#[test]
fn on_transfer_panics_on_negative_amount() {
    let mut s = TimeTransfersLimits::new();
    let r = on_transfer::<MockIRS>(&mut s, FROM, TO, -1, TransferKind::Standard, TOKEN, None, 0);
    assert_eq!(r, Err(module_err(ComplianceModuleError::InvalidAmount)));
    assert_eq!(ComplianceModuleError::InvalidAmount.code(), 390);
}

#[test]
fn counters_are_tracked_per_token() {
    let irs = MockIRS::at(IRS);
    let mut s = TimeTransfersLimits::new();
    set_time_transfer_limit(&mut s, TOKEN, limit(100, 50)).unwrap();
    set_time_transfer_limit(&mut s, TOKEN_B, limit(100, 50)).unwrap();
    on_transfer(&mut s, FROM, TO, 50, TransferKind::Standard, TOKEN, Some(&irs), 0).unwrap();
    assert_eq!(get_transfer_counter(&s, TOKEN, FROM, 100).value, 50);
    on_transfer(&mut s, FROM, TO, 50, TransferKind::Standard, TOKEN_B, Some(&irs), 0).unwrap();
    assert_eq!(get_transfer_counter(&s, TOKEN_B, FROM, 100).value, 50);
}

#[test]
fn can_transfer_agrees_with_on_transfer() {
    let irs = MockIRS::at(IRS);
    let mut s = TimeTransfersLimits::new();
    set_time_transfer_limit(&mut s, TOKEN, limit(100, 50)).unwrap();
    assert_eq!(can_transfer(&s, FROM, TO, 50, TOKEN, Some(&irs), 0), Ok(true));
    assert_eq!(can_transfer(&s, FROM, TO, 51, TOKEN, Some(&irs), 0), Ok(false));
    on_transfer(&mut s, FROM, TO, 40, TransferKind::Standard, TOKEN, Some(&irs), 0).unwrap();
    assert_eq!(can_transfer(&s, FROM, TO, 11, TOKEN, Some(&irs), 10), Ok(false));
    assert_eq!(can_transfer(&s, FROM, TO, 11, TOKEN, Some(&irs), 100), Ok(true));
}

#[test]
fn windows_require_a_registry() {
    let mut s = TimeTransfersLimits::new();
    set_time_transfer_limit(&mut s, TOKEN, limit(100, 50)).unwrap();
    let r = on_transfer::<MockIRS>(&mut s, FROM, TO, 1, TransferKind::Standard, TOKEN, None, 0);
    assert_eq!(r, Err(module_err(ComplianceModuleError::IdentityRegistryNotSet)));
}

#[test]
fn transfer_limit_checks_accumulated_window() {
    let irs = MockIRS::at(IRS);
    let mut m = TimeTransfersLimitsModule::new();
    m.set_compliance_address(COMPLIANCE);
    m.set_identity_registry_storage(TOKEN, IRS);
    m.set_time_transfer_limit(TOKEN, Limit { limit_time: 3_600, limit_value: 100 }).unwrap();
    assert_eq!(m.can_transfer(FROM, TO, 60, TOKEN, &irs, 0), Ok(true));
    m.on_transfer(FROM, TO, 60, TOKEN, &irs, 0).unwrap();
    assert_eq!(m.can_transfer(FROM, TO, 50, TOKEN, &irs, 0), Ok(false));
}

#[test]
fn shared_identity_shares_counters() {
    let (wallet_a, wallet_b, shared_id) = (20, 21, 100);
    let mut irs = MockIRS::at(IRS);
    irs.mock_set_identity(wallet_a, shared_id);
    irs.mock_set_identity(wallet_b, shared_id);
    let mut m = TimeTransfersLimitsModule::new();
    m.set_compliance_address(COMPLIANCE);
    m.set_identity_registry_storage(TOKEN, IRS);
    m.set_time_transfer_limit(TOKEN, Limit { limit_time: 3_600, limit_value: 100 }).unwrap();
    m.on_transfer(wallet_a, TO, 70, TOKEN, &irs, 0).unwrap();
    assert_eq!(m.can_transfer(wallet_b, TO, 40, TOKEN, &irs, 0), Ok(false));
    assert_eq!(m.can_transfer(wallet_b, TO, 30, TOKEN, &irs, 0), Ok(true));
}

#[test]
fn module_limits_are_bounded_and_removable() {
    let mut m = TimeTransfersLimitsModule::new();
    for t in 1..=(MAX_LIMITS_PER_TOKEN as u64) {
        m.set_time_transfer_limit(TOKEN, Limit { limit_time: t, limit_value: 1 }).unwrap();
    }
    assert!(m
        .set_time_transfer_limit(TOKEN, Limit { limit_time: 99, limit_value: 1 })
        .is_err());
    m.remove_time_transfer_limit(TOKEN, 1).unwrap();
    assert_eq!(m.get_time_transfer_limits(TOKEN).len(), MAX_LIMITS_PER_TOKEN as usize - 1);
    assert!(m.remove_time_transfer_limit(TOKEN, 1).is_err());
    assert_eq!(m.name(), "TimeTransfersLimitsModule");
    let irs = MockIRS::at(IRS);
    let fresh = TimeTransfersLimitsModule::new();
    assert_eq!(
        fresh.can_transfer(FROM, TO, 1, TOKEN, &irs, 0),
        Err(ContractError::Module(ModuleError::IdentityRegistryNotSet))
    );
    assert_eq!(
        m.remove_time_transfer_limit(TOKEN, 77),
        Err(ContractError::Module(ModuleError::MissingLimit))
    );
}

#[test]
fn module_limit_changes_keep_the_registry_binding() {
    // The test's order: bind the registry, then configure the window.
    let irs = MockIRS::at(IRS);
    let mut m = TimeTransfersLimitsModule::new();
    m.set_compliance_address(COMPLIANCE);
    m.set_identity_registry_storage(TOKEN, IRS);
    m.set_time_transfer_limit(TOKEN, Limit { limit_time: 3_600, limit_value: 100 }).unwrap();
    m.batch_set_time_transfer_limit(TOKEN, &vec![Limit { limit_time: 60, limit_value: 90 }]).unwrap();
    m.remove_time_transfer_limit(TOKEN, 60).unwrap();
    assert_eq!(m.get_compliance_address(99), COMPLIANCE);
    assert_eq!(m.can_transfer(FROM, TO, 60, TOKEN, &irs, 0), Ok(true));
}
