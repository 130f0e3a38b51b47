use rwa_tokens::compliance::modules::contracts::country_allow_module::CountryAllowModule;
use rwa_tokens::compliance::modules::contracts::country_restrict_module::CountryRestrictModule;
use rwa_tokens::compliance::modules::contracts::{ContractError, ModuleError};
use rwa_tokens::compliance::modules::country_allow::{
    add_allowed_country, batch_allow_countries, batch_disallow_countries, can_receive,
    is_country_allowed, on_created, on_transfer, remove_allowed_country, set_country_allowed,
    CountryAllow,
};
use rwa_tokens::compliance::modules::country_restrict::{
    self, add_country_restriction, batch_restrict_countries, batch_unrestrict_countries,
    is_country_restricted, remove_country_restriction, CountryRestrict,
};
use rwa_tokens::compliance::modules::test_utils::MockIRS;
use rwa_tokens::compliance::modules::ComplianceModuleError;
use rwa_tokens::compliance::TransferKind;
use rwa_tokens::identity_registry_storage::{
    CountryData, CountryRelation, IndividualCountryRelation, OrganizationCountryRelation,
};

const TOKEN: u64 = 1;
const COMPLIANCE: u64 = 2;
const IRS: u64 = 3;
const FROM: u64 = 10;
const TO: u64 = 11;

fn individual_country(code: u32) -> CountryData {
    CountryData {
        country: CountryRelation::Individual(IndividualCountryRelation::Residence(code)),
        metadata: None,
    }
}

fn citizenship(code: u32) -> CountryData {
    CountryData {
        country: CountryRelation::Individual(IndividualCountryRelation::Citizenship(code)),
        metadata: None,
    }
}

fn organization_country(code: u32) -> CountryData {
    CountryData {
        country: CountryRelation::Organization(OrganizationCountryRelation::OperatingJurisdiction(
            code,
        )),
        metadata: None,
    }
}

#[test]
fn can_receive_allows_when_any_country_matches() {
    let mut irs = MockIRS::at(IRS);
    irs.mock_set_countries(TO, &vec![individual_country(250), organization_country(276)]);
    let mut s = CountryAllow::new();
    set_country_allowed(&mut s, TOKEN, 276);
    assert_eq!(can_receive(&s, TO, TOKEN, Some(&irs)), Ok(true));
}

#[test]
fn can_receive_rejects_when_no_country_matches() {
    let mut irs = MockIRS::at(IRS);
    let empty_to = 20;
    let disallowed_to = 21;
    irs.mock_set_countries(disallowed_to, &vec![individual_country(250)]);
    let mut s = CountryAllow::new();
    set_country_allowed(&mut s, TOKEN, 276);
    assert_eq!(can_receive(&s, empty_to, TOKEN, Some(&irs)), Ok(false));
    assert_eq!(can_receive(&s, disallowed_to, TOKEN, Some(&irs)), Ok(false));
}

#[test]
fn country_allow_enforces_recipient_country() {
    let mut irs = MockIRS::at(IRS);
    irs.mock_set_countries(TO, &vec![individual_country(840)]);
    let mut module = CountryAllowModule::new();
    module.set_compliance_address(COMPLIANCE);
    module.set_identity_registry_storage(TOKEN, IRS);
    module.add_allowed_country(TOKEN, 840);
    assert_eq!(module.can_transfer(FROM, TO, 1, TOKEN, &irs), Ok(true));
    module.remove_allowed_country(TOKEN, 840);
    assert_eq!(module.can_transfer(FROM, TO, 1, TOKEN, &irs), Ok(false));
}

#[test]
fn allows_if_any_country_matches() {
    let mut irs = MockIRS::at(IRS);
    irs.mock_set_countries(TO, &vec![individual_country(840), citizenship(276)]);
    let mut module = CountryAllowModule::new();
    module.set_compliance_address(COMPLIANCE);
    module.set_identity_registry_storage(TOKEN, IRS);
    module.add_allowed_country(TOKEN, 276);
    assert_eq!(module.can_transfer(FROM, TO, 1, TOKEN, &irs), Ok(true));
}

#[test]
fn country_restrict_blocks_restricted_country() {
    let mut irs = MockIRS::at(IRS);
    irs.mock_set_countries(TO, &vec![individual_country(840)]);
    let mut module = CountryRestrictModule::new();
    module.set_compliance_address(COMPLIANCE);
    module.set_identity_registry_storage(TOKEN, IRS);
    module.add_country_restriction(TOKEN, 840);
    assert_eq!(module.can_transfer(FROM, TO, 1, TOKEN, &irs), Ok(false));
    module.remove_country_restriction(TOKEN, 840);
    assert_eq!(module.can_transfer(FROM, TO, 1, TOKEN, &irs), Ok(true));
}

#[test]
fn blocks_if_any_country_restricted() {
    let mut irs = MockIRS::at(IRS);
    irs.mock_set_countries(TO, &vec![individual_country(840), citizenship(276)]);
    let mut module = CountryRestrictModule::new();
    module.set_compliance_address(COMPLIANCE);
    module.set_identity_registry_storage(TOKEN, IRS);
    module.add_country_restriction(TOKEN, 276);
    assert_eq!(module.can_transfer(FROM, TO, 1, TOKEN, &irs), Ok(false));
}

#[test]
fn module_contracts_require_a_bound_registry() {
    let irs = MockIRS::at(IRS);
    let allow = CountryAllowModule::new();
    assert_eq!(
        allow.can_transfer(FROM, TO, 1, TOKEN, &irs),
        Err(ContractError::Module(ModuleError::IdentityRegistryNotSet))
    );
    let restrict = CountryRestrictModule::new();
    assert_eq!(
        restrict.can_create(TO, 1, TOKEN, &irs),
        Err(ContractError::Module(ModuleError::IdentityRegistryNotSet))
    );
}

#[test]
fn module_contracts_default_compliance_address_to_self() {
    let mut module = CountryAllowModule::new();
    assert_eq!(module.get_compliance_address(99), 99);
    module.set_compliance_address(COMPLIANCE);
    assert_eq!(module.get_compliance_address(99), COMPLIANCE);
    assert_eq!(module.name(), "CountryAllowModule");
    assert_eq!(CountryRestrictModule::new().name(), "CountryRestrictModule");
}

#[test]
fn country_allow_hooks_reject_unlisted_recipient() {
    let mut irs = MockIRS::at(IRS);
    irs.mock_set_countries(TO, &vec![individual_country(250)]);
    let mut s = CountryAllow::new();
    assert!(add_allowed_country(&mut s, TOKEN, 276));
    assert!(!add_allowed_country(&mut s, TOKEN, 276));
    assert!(is_country_allowed(&s, TOKEN, 276));
    assert_eq!(
        on_transfer(&s, TO, TransferKind::Standard, TOKEN, Some(&irs)),
        Err(ComplianceModuleError::CountryNotAllowed)
    );
    assert_eq!(
        on_transfer(&s, TO, TransferKind::Forced, TOKEN, Some(&irs)),
        Ok(())
    );
    assert_eq!(
        on_created(&s, TO, TOKEN, Some(&irs)),
        Err(ComplianceModuleError::CountryNotAllowed)
    );
    assert_eq!(
        can_receive::<MockIRS>(&s, TO, TOKEN, None),
        Err(ComplianceModuleError::IdentityRegistryNotSet)
    );
    assert!(remove_allowed_country(&mut s, TOKEN, 276));
    assert!(!remove_allowed_country(&mut s, TOKEN, 276));
}

#[test]
fn country_allow_batches_report_changes() {
    let mut s = CountryAllow::new();
    set_country_allowed(&mut s, TOKEN, 1);
    assert_eq!(batch_allow_countries(&mut s, TOKEN, &vec![1, 2, 3]), vec![2, 3]);
    assert_eq!(batch_disallow_countries(&mut s, TOKEN, &vec![3, 4]), vec![3]);
    assert!(is_country_allowed(&s, TOKEN, 1));
    assert!(is_country_allowed(&s, TOKEN, 2));
    assert!(!is_country_allowed(&s, TOKEN, 3));
}

#[test]
fn country_restrict_checks_every_entry() {
    let mut irs = MockIRS::at(IRS);
    irs.mock_set_countries(TO, &vec![individual_country(840), citizenship(276)]);
    let mut s = CountryRestrict::new();
    assert_eq!(country_restrict::can_receive(&s, TO, TOKEN, Some(&irs)), Ok(true));
    assert!(add_country_restriction(&mut s, TOKEN, 276));
    assert!(is_country_restricted(&s, TOKEN, 276));
    assert_eq!(country_restrict::can_receive(&s, TO, TOKEN, Some(&irs)), Ok(false));
    assert_eq!(country_restrict::can_create(&s, TO, 5, TOKEN, Some(&irs)), Ok(false));
    assert!(remove_country_restriction(&mut s, TOKEN, 276));
    assert_eq!(batch_restrict_countries(&mut s, TOKEN, &vec![5, 5, 6]), vec![5, 6]);
    assert_eq!(batch_unrestrict_countries(&mut s, TOKEN, &vec![6, 7]), vec![6]);
    assert!(is_country_restricted(&s, TOKEN, 5));
}
