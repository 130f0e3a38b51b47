use rwa_tokens::compliance::modules::storage::{
    add_i128_or_panic, get_compliance_address, get_irs_address, require_non_negative_amount,
    set_compliance_address, set_irs_address, sub_i128_or_panic, IRSRead, ModuleBindings,
};
use rwa_tokens::compliance::modules::test_utils::MockIRS;
use rwa_tokens::compliance::modules::wiring::{
    get_compliance_address as wiring_compliance, hooks_verified, set_compliance_address as wiring_set,
    verify_required_hooks, ModuleWiring, WiringError,
};
use rwa_tokens::compliance::modules::ComplianceModuleError;
use rwa_tokens::compliance::storage::{add_module_to, ComplianceRegistry};
use rwa_tokens::compliance::ComplianceHook;
use rwa_tokens::identity_registry_storage::{CountryData, CountryRelation, IndividualCountryRelation};

fn sample_country_entry() -> CountryData {
    CountryData {
        country: CountryRelation::Individual(IndividualCountryRelation::Residence(276)),
        metadata: None,
    }
}

#[test]
fn test_get_irs_client_returns_working_client_for_configured_token() {
    let mut b = ModuleBindings::new();
    let irs = MockIRS::new();
    let (token, irs_addr, account) = (1u64, 2u64, 3u64);
    set_irs_address(&mut b, token, irs_addr);
    assert_eq!(get_irs_address(&b, token), Ok(irs_addr));
    assert_eq!(irs.stored_identity(account), Ok(account));
    assert_eq!(irs.get_country_data_entries(account).len(), 0);
}

#[test]
fn get_irs_country_data_entries_returns_typed_entries() {
    let mut b = ModuleBindings::new();
    let mut irs = MockIRS::new();
    let (token, irs_addr, account) = (1u64, 2u64, 3u64);
    let entries = vec![sample_country_entry()];
    irs.mock_set_countries(account, &entries);
    set_irs_address(&mut b, token, irs_addr);
    assert_eq!(get_irs_address(&b, token), Ok(irs_addr));
    assert_eq!(irs.get_country_data_entries(account), entries);
}

#[test]
fn test_get_irs_client_panics_when_not_configured() {
    let b = ModuleBindings::new();
    let r = get_irs_address(&b, 5);
    assert_eq!(r, Err(ComplianceModuleError::IdentityRegistryNotSet));
    assert_eq!(r.unwrap_err().code(), 396);
}

#[test]
fn test_panicking_math_helpers_return_expected_values() {
    assert_eq!(add_i128_or_panic(2, 3), Ok(5));
    assert_eq!(sub_i128_or_panic(7, 4), Ok(3));
}

#[test]
fn test_add_i128_or_panic_panics_on_overflow() {
    let r = add_i128_or_panic(i128::MAX, 1);
    assert_eq!(r, Err(ComplianceModuleError::MathOverflow));
    assert_eq!(r.unwrap_err().code(), 391);
}

#[test]
fn test_sub_i128_or_panic_panics_on_underflow() {
    let r = sub_i128_or_panic(i128::MIN, 1);
    assert_eq!(r, Err(ComplianceModuleError::MathUnderflow));
    assert_eq!(r.unwrap_err().code(), 392);
}

#[test]
fn set_and_get_compliance_address_round_trip() {
    let mut b = ModuleBindings::new();
    set_compliance_address(&mut b, 10, 20);
    assert_eq!(get_compliance_address(&b, 10), Ok(20));
}

#[test]
fn set_compliance_address_overwrites_existing_binding() {
    let mut b = ModuleBindings::new();
    set_compliance_address(&mut b, 10, 20);
    set_compliance_address(&mut b, 10, 21);
    assert_eq!(get_compliance_address(&b, 10), Ok(21));
}

#[test]
fn compliance_address_is_isolated_per_token() {
    let mut b = ModuleBindings::new();
    set_compliance_address(&mut b, 10, 20);
    set_compliance_address(&mut b, 11, 21);
    assert_eq!(get_compliance_address(&b, 10), Ok(20));
    assert_eq!(get_compliance_address(&b, 11), Ok(21));
}

#[test]
fn test_get_compliance_address_panics_when_not_configured() {
    let b = ModuleBindings::new();
    let r = get_compliance_address(&b, 10);
    assert_eq!(r, Err(ComplianceModuleError::ComplianceNotSet));
    assert_eq!(r.unwrap_err().code(), 398);
}

#[test]
fn require_non_negative_amount_accepts_zero_and_positive() {
    assert_eq!(require_non_negative_amount(0), Ok(()));
    assert_eq!(require_non_negative_amount(i128::MAX), Ok(()));
}

#[test]
fn require_non_negative_amount_panics_on_negative() {
    let r = require_non_negative_amount(-1);
    assert_eq!(r, Err(ComplianceModuleError::InvalidAmount));
    assert_eq!(r.unwrap_err().code(), 390);
}

#[test]
fn verify_required_hooks_skips_when_unconfigured() {
    let mut w = ModuleWiring::new();
    let registry = ComplianceRegistry::new();
    assert_eq!(verify_required_hooks(&mut w, &vec![ComplianceHook::Transferred], &registry, 1), Ok(()));
    assert!(!hooks_verified(&w));
}

#[test]
fn verify_required_hooks_sets_cache_when_registered() {
    let mut w = ModuleWiring::new();
    let mut registry = ComplianceRegistry::new();
    let module = 1u64;
    add_module_to(&mut registry, ComplianceHook::Transferred, module).unwrap();
    wiring_set(&mut w, 50).unwrap();
    assert_eq!(verify_required_hooks(&mut w, &vec![ComplianceHook::Transferred], &registry, module), Ok(()));
    assert!(hooks_verified(&w));
}

#[test]
fn verify_required_hooks_returns_early_when_cached() {
    let mut w = ModuleWiring::new();
    let mut registry = ComplianceRegistry::new();
    let module = 1u64;
    add_module_to(&mut registry, ComplianceHook::Transferred, module).unwrap();
    wiring_set(&mut w, 50).unwrap();
    verify_required_hooks(&mut w, &vec![ComplianceHook::Transferred], &registry, module).unwrap();
    // Once cached, the check is not made again, even against a registry
    // that lacks the module.
    let empty = ComplianceRegistry::new();
    assert_eq!(verify_required_hooks(&mut w, &vec![ComplianceHook::Transferred], &empty, module), Ok(()));
    assert!(hooks_verified(&w));
}

#[test]
fn verify_required_hooks_missing_required_hook_panics_with_contract_error() {
    let mut w = ModuleWiring::new();
    let registry = ComplianceRegistry::new();
    wiring_set(&mut w, 50).unwrap();
    assert_eq!(
        verify_required_hooks(&mut w, &vec![ComplianceHook::Transferred], &registry, 1),
        Err(WiringError::MissingRequiredHook)
    );
    assert!(!hooks_verified(&w));
}

#[test]
fn common_get_irs_client_returns_working_client_for_configured_token() {
    let mut b = ModuleBindings::new();
    let irs = MockIRS::new();
    set_irs_address(&mut b, 1, 2);
    assert_eq!(get_irs_address(&b, 1), Ok(2));
    assert_eq!(irs.stored_identity(3), Ok(3));
    assert_eq!(irs.get_country_data_entries(3).len(), 0);
}

#[test]
fn common_get_irs_client_panics_when_not_configured() {
    let b = ModuleBindings::new();
    assert_eq!(get_irs_address(&b, 1), Err(ComplianceModuleError::IdentityRegistryNotSet));
}

#[test]
fn set_compliance_address_panics_with_contract_error_when_already_set() {
    let mut w = ModuleWiring::new();
    assert_eq!(wiring_set(&mut w, 50), Ok(()));
    assert_eq!(wiring_set(&mut w, 51), Err(WiringError::ComplianceAlreadySet));
    assert_eq!(wiring_compliance(&w), Ok(50));
}

#[test]
fn common_get_compliance_address_panics_when_not_configured() {
    let w = ModuleWiring::new();
    assert_eq!(wiring_compliance(&w), Err(WiringError::ComplianceNotSet));
}

#[test]
fn get_compliance_address_returns_configured_address() {
    let mut w = ModuleWiring::new();
    wiring_set(&mut w, 50).unwrap();
    assert_eq!(wiring_compliance(&w), Ok(50));
}

#[test]
fn common_panicking_math_helpers_return_expected_values() {
    assert_eq!(add_i128_or_panic(2, 3), Ok(5));
    assert_eq!(sub_i128_or_panic(7, 4), Ok(3));
}

#[test]
fn common_add_i128_or_panic_panics_on_overflow() {
    assert_eq!(add_i128_or_panic(i128::MAX, 1), Err(ComplianceModuleError::MathOverflow));
}

#[test]
fn common_sub_i128_or_panic_panics_on_underflow() {
    assert_eq!(sub_i128_or_panic(i128::MIN, 1), Err(ComplianceModuleError::MathUnderflow));
}

#[test]
fn module_errors_have_their_codes() {
    assert_eq!(ComplianceModuleError::InvalidAmount.code(), 390);
    assert_eq!(ComplianceModuleError::MathOverflow.code(), 391);
    assert_eq!(ComplianceModuleError::InsufficientUnlockedBalance.code(), 399);
    assert_eq!(ComplianceModuleError::LockBoundExceeded.code(), 400);
    assert_eq!(ComplianceModuleError::UserNotAllowed.code(), 406);
}
