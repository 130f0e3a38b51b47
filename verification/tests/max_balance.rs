use rwa_tokens::compliance::modules::contracts::max_balance_module::MaxBalanceModule;
use rwa_tokens::compliance::modules::contracts::{ContractError, ModuleError};
use rwa_tokens::compliance::modules::max_balance::{
    batch_preset_id_balances, can_create, can_receive, can_transfer, get_id_balance,
    get_id_balance_of, get_max_balance, is_preset_completed, mark_preset_completed, on_created,
    on_destroyed, on_transfer, preset_id_balance, set_max_balance, MaxBalances,
};
use rwa_tokens::compliance::modules::test_utils::MockIRS;
use rwa_tokens::compliance::modules::{ComplianceModuleError, HookError};
use rwa_tokens::compliance::TransferKind;

const TOKEN: u64 = 1;
const COMPLIANCE: u64 = 2;
const IRS: u64 = 3;

fn module_err(e: ComplianceModuleError) -> HookError {
    HookError::Module(e)
}

#[test]
fn set_max_balance_persists_value() {
    let mut s = MaxBalances::new();
    set_max_balance(&mut s, TOKEN, 1_000).unwrap();
    assert_eq!(get_max_balance(&s, TOKEN), 1_000);
}

#[test]
fn can_receive_respects_aggregate_balance_per_identity() {
    let (wallet_a, wallet_b, identity) = (10, 11, 100);
    let mut irs = MockIRS::at(IRS);
    irs.mock_set_identity(wallet_a, identity);
    irs.mock_set_identity(wallet_b, identity);
    let mut s = MaxBalances::new();
    set_max_balance(&mut s, TOKEN, 100).unwrap();
    assert_eq!(can_receive(&s, wallet_a, 100, TOKEN, Some(&irs)), Ok(true));
    on_created(&mut s, wallet_a, 70, TOKEN, Some(&irs)).unwrap();
    assert_eq!(can_receive(&s, wallet_b, 30, TOKEN, Some(&irs)), Ok(true));
    assert_eq!(can_receive(&s, wallet_b, 31, TOKEN, Some(&irs)), Ok(false));
}

#[test]
fn can_receive_rejects_when_amount_alone_exceeds_max() {
    let irs = MockIRS::at(IRS);
    let mut s = MaxBalances::new();
    set_max_balance(&mut s, TOKEN, 50).unwrap();
    assert_eq!(can_receive(&s, 10, 51, TOKEN, Some(&irs)), Ok(false));
}

#[test]
fn can_transfer_and_can_create_check_recipient_identity() {
    let (from, to) = (10, 11);
    let irs = MockIRS::at(IRS);
    let mut s = MaxBalances::new();
    set_max_balance(&mut s, TOKEN, 100).unwrap();
    assert_eq!(can_transfer(&s, from, to, 50, TOKEN, Some(&irs)), Ok(true));
    assert_eq!(can_create(&s, to, 100, TOKEN, Some(&irs)), Ok(true));
    assert_eq!(can_transfer(&s, from, to, 101, TOKEN, Some(&irs)), Ok(false));
}

#[test]
fn on_transfer_moves_balance_between_identities() {
    let (alice_wallet, bob_wallet, alice_id, bob_id) = (10, 11, 100, 101);
    let mut irs = MockIRS::at(IRS);
    irs.mock_set_identity(alice_wallet, alice_id);
    irs.mock_set_identity(bob_wallet, bob_id);
    let mut s = MaxBalances::new();
    set_max_balance(&mut s, TOKEN, 100).unwrap();
    on_created(&mut s, alice_wallet, 80, TOKEN, Some(&irs)).unwrap();
    on_transfer(&mut s, alice_wallet, bob_wallet, 30, TransferKind::Standard, TOKEN, Some(&irs))
        .unwrap();
    assert_eq!(get_id_balance(&s, TOKEN, alice_id), 50);
    assert_eq!(get_id_balance(&s, TOKEN, bob_id), 30);
}

#[test]
fn same_identity_transfer_is_noop_for_cap_and_balance() {
    let (wallet_a, wallet_b, identity) = (10, 11, 100);
    let mut irs = MockIRS::at(IRS);
    irs.mock_set_identity(wallet_a, identity);
    irs.mock_set_identity(wallet_b, identity);
    let mut s = MaxBalances::new();
    set_max_balance(&mut s, TOKEN, 100).unwrap();
    on_created(&mut s, wallet_a, 100, TOKEN, Some(&irs)).unwrap();
    assert_eq!(can_transfer(&s, wallet_a, wallet_b, 50, TOKEN, Some(&irs)), Ok(true));
    on_transfer(&mut s, wallet_a, wallet_b, 50, TransferKind::Standard, TOKEN, Some(&irs)).unwrap();
    assert_eq!(get_id_balance(&s, TOKEN, identity), 100);
}

#[test]
fn on_destroyed_decrements_identity_balance() {
    let (wallet, identity) = (10, 100);
    let mut irs = MockIRS::at(IRS);
    irs.mock_set_identity(wallet, identity);
    let mut s = MaxBalances::new();
    set_max_balance(&mut s, TOKEN, 100).unwrap();
    on_created(&mut s, wallet, 80, TOKEN, Some(&irs)).unwrap();
    on_destroyed(&mut s, wallet, 30, TOKEN, Some(&irs)).unwrap();
    assert_eq!(get_id_balance(&s, TOKEN, identity), 50);
    assert_eq!(get_id_balance_of(&s, TOKEN, wallet, Some(&irs)), Ok(50));
}

#[test]
fn on_created_panics_when_exceeding_max() {
    let irs = MockIRS::at(IRS);
    let mut s = MaxBalances::new();
    set_max_balance(&mut s, TOKEN, 50).unwrap();
    let r = on_created(&mut s, 10, 51, TOKEN, Some(&irs));
    assert_eq!(r, Err(module_err(ComplianceModuleError::MaxBalanceExceeded)));
    assert_eq!(ComplianceModuleError::MaxBalanceExceeded.code(), 393);
    assert_eq!(get_id_balance(&s, TOKEN, 10), 0);
}

#[test]
fn on_destroyed_panics_when_identity_has_insufficient_balance() {
    let irs = MockIRS::at(IRS);
    let mut s = MaxBalances::new();
    let r = on_destroyed(&mut s, 10, 1, TOKEN, Some(&irs));
    assert_eq!(r, Err(module_err(ComplianceModuleError::MathUnderflow)));
    assert_eq!(ComplianceModuleError::MathUnderflow.code(), 392);
}

#[test]
fn on_transfer_panics_when_recipient_exceeds_max() {
    let (from_wallet, to_wallet, from_id, to_id) = (10, 11, 100, 101);
    let mut irs = MockIRS::at(IRS);
    irs.mock_set_identity(from_wallet, from_id);
    irs.mock_set_identity(to_wallet, to_id);
    let mut s = MaxBalances::new();
    set_max_balance(&mut s, TOKEN, 50).unwrap();
    preset_id_balance(&mut s, TOKEN, from_id, 50).unwrap();
    preset_id_balance(&mut s, TOKEN, to_id, 30).unwrap();
    let r = on_transfer(&mut s, from_wallet, to_wallet, 25, TransferKind::Standard, TOKEN, Some(&irs));
    assert_eq!(r, Err(module_err(ComplianceModuleError::MaxBalanceExceeded)));
    assert_eq!(get_id_balance(&s, TOKEN, from_id), 50);
    assert_eq!(get_id_balance(&s, TOKEN, to_id), 30);
}

#[test]
fn preset_id_balance_writes_directly() {
    let mut s = MaxBalances::new();
    preset_id_balance(&mut s, TOKEN, 100, 9_999).unwrap();
    assert_eq!(get_id_balance(&s, TOKEN, 100), 9_999);
    assert!(!is_preset_completed(&s, TOKEN));
}

#[test]
fn batch_preset_id_balances_writes_all_entries() {
    let mut s = MaxBalances::new();
    batch_preset_id_balances(&mut s, TOKEN, &vec![100, 101], &vec![100, 200]).unwrap();
    assert_eq!(get_id_balance(&s, TOKEN, 100), 100);
    assert_eq!(get_id_balance(&s, TOKEN, 101), 200);
}

#[test]
fn test_mark_preset_completed_blocks_further_presets() {
    let mut s = MaxBalances::new();
    mark_preset_completed(&mut s, TOKEN);
    assert!(is_preset_completed(&s, TOKEN));
    mark_preset_completed(&mut s, TOKEN);
    assert!(is_preset_completed(&s, TOKEN));
}

#[test]
fn preset_id_balance_panics_after_preset_completed() {
    let mut s = MaxBalances::new();
    mark_preset_completed(&mut s, TOKEN);
    let r = preset_id_balance(&mut s, TOKEN, 100, 1);
    assert_eq!(r, Err(ComplianceModuleError::PresetAlreadyCompleted));
    assert_eq!(r.unwrap_err().code(), 395);
}

#[test]
fn batch_preset_id_balances_panics_on_length_mismatch() {
    let mut s = MaxBalances::new();
    let r = batch_preset_id_balances(&mut s, TOKEN, &vec![100], &vec![1, 2]);
    assert_eq!(r, Err(ComplianceModuleError::BatchSizeMismatch));
    assert_eq!(r.unwrap_err().code(), 397);
}

#[test]
fn preset_id_balance_panics_on_negative_balance() {
    let mut s = MaxBalances::new();
    let r = preset_id_balance(&mut s, TOKEN, 100, -1);
    assert_eq!(r, Err(ComplianceModuleError::InvalidAmount));
    assert_eq!(r.unwrap_err().code(), 390);
}

#[test]
fn set_max_balance_panics_on_negative_value() {
    let mut s = MaxBalances::new();
    let r = set_max_balance(&mut s, TOKEN, -1);
    assert_eq!(r, Err(ComplianceModuleError::InvalidAmount));
    assert_eq!(r.unwrap_err().code(), 390);
}

#[test]
fn forced_transfer_is_exempt_from_the_cap() {
    let (from, to) = (10, 11);
    let irs = MockIRS::at(IRS);
    let mut s = MaxBalances::new();
    set_max_balance(&mut s, TOKEN, 50).unwrap();
    preset_id_balance(&mut s, TOKEN, from, 100).unwrap();
    on_transfer(&mut s, from, to, 80, TransferKind::Forced, TOKEN, Some(&irs)).unwrap();
    assert_eq!(get_id_balance(&s, TOKEN, from), 20);
    assert_eq!(get_id_balance(&s, TOKEN, to), 80);
}

#[test]
fn hooks_require_a_registry() {
    let mut s = MaxBalances::new();
    let r = on_created::<MockIRS>(&mut s, 10, 1, TOKEN, None);
    assert_eq!(r, Err(module_err(ComplianceModuleError::IdentityRegistryNotSet)));
    let r = on_created(&mut s, 10, -1, TOKEN, Some(&MockIRS::at(IRS)));
    assert_eq!(r, Err(module_err(ComplianceModuleError::InvalidAmount)));
}

#[test]
fn max_balance_blocks_over_limit() {
    let (from, to) = (10, 11);
    let mut irs = MockIRS::at(IRS);
    irs.mock_set_identity(from, from);
    irs.mock_set_identity(to, to);
    let mut m = MaxBalanceModule::new();
    m.set_compliance_address(COMPLIANCE);
    m.set_identity_registry_storage(TOKEN, IRS);
    m.set_max_balance(TOKEN, 100).unwrap();
    m.pre_set_module_state(TOKEN, from, 80).unwrap();
    m.pre_set_module_state(TOKEN, to, 30).unwrap();
    assert_eq!(m.can_transfer(from, to, 71, TOKEN, &irs), Ok(false));
    assert_eq!(m.can_transfer(from, to, 70, TOKEN, &irs), Ok(true));
}

#[test]
fn on_transfer_keeps_balances_consistent() {
    let (from, to) = (10, 11);
    let irs = MockIRS::at(IRS);
    let mut m = MaxBalanceModule::new();
    m.set_compliance_address(COMPLIANCE);
    m.set_identity_registry_storage(TOKEN, IRS);
    m.pre_set_module_state(TOKEN, from, 10).unwrap();
    m.on_transfer(from, to, 9, TOKEN, &irs).unwrap();
    assert_eq!(m.get_investor_balance(TOKEN, from), 1);
    assert_eq!(m.get_investor_balance(TOKEN, to), 9);
}

#[test]
fn shared_identity_aggregates_balance() {
    let (wallet_a, wallet_b, shared_id, sender) = (10, 11, 100, 12);
    let mut irs = MockIRS::at(IRS);
    irs.mock_set_identity(wallet_a, shared_id);
    irs.mock_set_identity(wallet_b, shared_id);
    let mut m = MaxBalanceModule::new();
    m.set_compliance_address(COMPLIANCE);
    m.set_identity_registry_storage(TOKEN, IRS);
    m.set_max_balance(TOKEN, 100).unwrap();
    m.pre_set_module_state(TOKEN, sender, 200).unwrap();
    m.on_transfer(sender, wallet_a, 60, TOKEN, &irs).unwrap();
    assert_eq!(m.get_investor_balance(TOKEN, shared_id), 60);
    assert_eq!(m.can_transfer(sender, wallet_b, 41, TOKEN, &irs), Ok(false));
    assert_eq!(m.can_transfer(sender, wallet_b, 40, TOKEN, &irs), Ok(true));
}

#[test]
fn max_balance_module_errors() {
    let irs = MockIRS::at(IRS);
    let mut m = MaxBalanceModule::new();
    assert_eq!(
        m.on_created(10, 5, TOKEN, &irs),
        Err(ContractError::Module(ModuleError::IdentityRegistryNotSet))
    );
    m.set_identity_registry_storage(TOKEN, IRS);
    m.set_max_balance(TOKEN, 10).unwrap();
    assert_eq!(m.on_created(10, 11, TOKEN, &irs), Err(ContractError::MaxBalanceExceeded));
    assert_eq!(
        m.set_max_balance(TOKEN, -1),
        Err(ContractError::Module(ModuleError::InvalidAmount))
    );
    assert_eq!(
        m.batch_pre_set_module_state(TOKEN, &vec![1, 2], &vec![1]),
        Err(ContractError::LengthMismatch)
    );
    m.on_created(10, 10, TOKEN, &irs).unwrap();
    m.on_destroyed(10, 4, TOKEN, &irs).unwrap();
    assert_eq!(m.get_investor_balance(TOKEN, 10), 6);
    assert_eq!(m.name(), "MaxBalanceModule");
}
