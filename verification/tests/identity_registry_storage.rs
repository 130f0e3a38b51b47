use rwa_tokens::identity_registry_storage::{
    add_country_data_entries, add_identity, delete_country_data, get_country_data,
    get_country_data_entries, get_identity_profile, get_recovered_to, modify_country_data,
    modify_identity, recover_identity, remove_identity, stored_identity, CountryData,
    CountryRelation, IRSError, IdentityRegistryStorage, IdentityType, IndividualCountryRelation,
    OrganizationCountryRelation, MAX_COUNTRY_ENTRIES,
};

const ACCOUNT: u64 = 10;
const NEW_ACCOUNT: u64 = 11;
const IDENTITY: u64 = 100;
const IDENTITY2: u64 = 101;

fn residence(code: u32) -> CountryData {
    CountryData {
        country: CountryRelation::Individual(IndividualCountryRelation::Residence(code)),
        metadata: None,
    }
}

fn citizenship(code: u32) -> CountryData {
    CountryData {
        country: CountryRelation::Individual(IndividualCountryRelation::Citizenship(code)),
        metadata: None,
    }
}

fn with_valid_until(mut d: CountryData, v: &str) -> CountryData {
    d.metadata = Some(vec![(String::from("valid_until"), String::from(v))]);
    d
}

fn org(rel: OrganizationCountryRelation) -> CountryData {
    CountryData { country: CountryRelation::Organization(rel), metadata: None }
}

#[test]
fn test_add_identity_success() {
    let mut s = IdentityRegistryStorage::new();
    let d = residence(840);
    add_identity(&mut s, ACCOUNT, IDENTITY, IdentityType::Individual, &vec![d.clone()]).unwrap();
    assert_eq!(stored_identity(&s, ACCOUNT), Ok(IDENTITY));
    let profile = get_identity_profile(&s, ACCOUNT).unwrap();
    assert_eq!(profile.identity_type, IdentityType::Individual);
    assert_eq!(profile.countries.len(), 1);
    assert_eq!(get_country_data(&s, ACCOUNT, 0), Ok(d));
}

#[test]
fn test_add_identity_already_exists() {
    let mut s = IdentityRegistryStorage::new();
    let d = residence(840);
    add_identity(&mut s, ACCOUNT, IDENTITY, IdentityType::Individual, &vec![d.clone()]).unwrap();
    let r = add_identity(&mut s, ACCOUNT, IDENTITY, IdentityType::Individual, &vec![d]);
    assert_eq!(r, Err(IRSError::IdentityOverwrite));
    assert_eq!(r.unwrap_err().code(), 320);
}

#[test]
fn test_modify_identity_success() {
    let mut s = IdentityRegistryStorage::new();
    add_identity(&mut s, ACCOUNT, IDENTITY, IdentityType::Individual, &vec![residence(840)]).unwrap();
    modify_identity(&mut s, ACCOUNT, IDENTITY2).unwrap();
    assert_eq!(stored_identity(&s, ACCOUNT), Ok(IDENTITY2));
}

#[test]
fn test_modify_identity_not_found() {
    let mut s = IdentityRegistryStorage::new();
    let r = modify_identity(&mut s, ACCOUNT, IDENTITY2);
    assert_eq!(r, Err(IRSError::IdentityNotFound));
    assert_eq!(r.unwrap_err().code(), 321);
}

#[test]
fn test_get_identity_success() {
    let mut s = IdentityRegistryStorage::new();
    add_identity(&mut s, ACCOUNT, IDENTITY, IdentityType::Individual, &vec![residence(840)]).unwrap();
    assert_eq!(stored_identity(&s, ACCOUNT), Ok(IDENTITY));
}

#[test]
fn test_get_identity_not_found() {
    let s = IdentityRegistryStorage::new();
    let r = stored_identity(&s, ACCOUNT);
    assert_eq!(r, Err(IRSError::IdentityNotFound));
    assert_eq!(r.unwrap_err().code(), 321);
}

#[test]
fn test_remove_identity_success() {
    let mut s = IdentityRegistryStorage::new();
    add_identity(&mut s, ACCOUNT, IDENTITY, IdentityType::Individual, &vec![residence(840)]).unwrap();
    assert_eq!(get_country_data_entries(&s, ACCOUNT).len(), 1);
    remove_identity(&mut s, ACCOUNT).unwrap();
    assert_eq!(stored_identity(&s, ACCOUNT), Err(IRSError::IdentityNotFound));
    assert_eq!(get_country_data_entries(&s, ACCOUNT).len(), 0);
}

#[test]
fn test_remove_identity_not_found() {
    let mut s = IdentityRegistryStorage::new();
    let r = remove_identity(&mut s, ACCOUNT);
    assert_eq!(r, Err(IRSError::IdentityNotFound));
    assert_eq!(r.unwrap_err().code(), 321);
}

#[test]
fn add_country_data_entries_success() {
    let mut s = IdentityRegistryStorage::new();
    add_identity(&mut s, ACCOUNT, IDENTITY, IdentityType::Individual, &vec![residence(840)]).unwrap();
    let d2 = citizenship(276);
    add_country_data_entries(&mut s, ACCOUNT, &vec![d2.clone()]).unwrap();
    assert_eq!(get_country_data_entries(&s, ACCOUNT).len(), 2);
    assert_eq!(get_country_data(&s, ACCOUNT, 1), Ok(d2));
}

#[test]
fn modify_country_data_success() {
    let mut s = IdentityRegistryStorage::new();
    add_identity(&mut s, ACCOUNT, IDENTITY, IdentityType::Individual, &vec![residence(840)]).unwrap();
    let modified = with_valid_until(residence(276), "12345");
    modify_country_data(&mut s, ACCOUNT, 0, &modified).unwrap();
    assert_eq!(get_country_data(&s, ACCOUNT, 0), Ok(modified));
}

#[test]
fn modify_country_data_not_found() {
    let mut s = IdentityRegistryStorage::new();
    let d = residence(276);
    add_identity(&mut s, ACCOUNT, IDENTITY, IdentityType::Individual, &vec![d.clone()]).unwrap();
    let r = modify_country_data(&mut s, ACCOUNT, 1, &d);
    assert_eq!(r, Err(IRSError::CountryDataNotFound));
    assert_eq!(r.unwrap_err().code(), 322);
}

#[test]
fn delete_country_data_success() {
    let mut s = IdentityRegistryStorage::new();
    let d1 = residence(840);
    let d2 = citizenship(276);
    let d3 = with_valid_until(residence(4), "123");
    add_identity(&mut s, ACCOUNT, IDENTITY, IdentityType::Individual, &vec![d1.clone(), d2, d3.clone()])
        .unwrap();
    delete_country_data(&mut s, ACCOUNT, 1).unwrap();
    assert_eq!(get_country_data_entries(&s, ACCOUNT).len(), 2);
    assert_eq!(get_country_data(&s, ACCOUNT, 0), Ok(d1));
    assert_eq!(get_country_data(&s, ACCOUNT, 1), Ok(d3));
}

#[test]
fn get_country_data_entries_success() {
    let mut s = IdentityRegistryStorage::new();
    let d1 = residence(840);
    add_identity(&mut s, ACCOUNT, IDENTITY, IdentityType::Individual, &vec![d1.clone(), citizenship(276)])
        .unwrap();
    assert_eq!(get_country_data_entries(&s, ACCOUNT).len(), 2);
    delete_country_data(&mut s, ACCOUNT, 1).unwrap();
    assert_eq!(get_country_data_entries(&s, ACCOUNT).len(), 1);
    assert_eq!(get_country_data(&s, ACCOUNT, 0), Ok(d1));
}

#[test]
fn get_empty_country_data_list() {
    let s = IdentityRegistryStorage::new();
    assert_eq!(get_country_data_entries(&s, ACCOUNT).len(), 0);
}

#[test]
fn add_multiple_country_data() {
    let mut s = IdentityRegistryStorage::new();
    let d1 = residence(840);
    let d2 = citizenship(276);
    let d3 = with_valid_until(residence(4), "123");
    add_identity(&mut s, ACCOUNT, IDENTITY, IdentityType::Individual, &vec![d1.clone()]).unwrap();
    add_country_data_entries(&mut s, ACCOUNT, &vec![d2.clone(), d3.clone()]).unwrap();
    assert_eq!(get_country_data_entries(&s, ACCOUNT).len(), 3);
    assert_eq!(get_country_data(&s, ACCOUNT, 0), Ok(d1));
    assert_eq!(get_country_data(&s, ACCOUNT, 1), Ok(d2));
    assert_eq!(get_country_data(&s, ACCOUNT, 2), Ok(d3));
}

#[test]
fn delete_last_country_data() {
    let mut s = IdentityRegistryStorage::new();
    let d1 = residence(840);
    add_identity(&mut s, ACCOUNT, IDENTITY, IdentityType::Individual, &vec![d1.clone(), citizenship(276)])
        .unwrap();
    assert_eq!(get_country_data_entries(&s, ACCOUNT).len(), 2);
    delete_country_data(&mut s, ACCOUNT, 1).unwrap();
    assert_eq!(get_country_data_entries(&s, ACCOUNT).len(), 1);
    assert_eq!(get_country_data(&s, ACCOUNT, 0), Ok(d1));
}

#[test]
fn delete_country_data_panics() {
    let mut s = IdentityRegistryStorage::new();
    let r = delete_country_data(&mut s, ACCOUNT, 1);
    assert_eq!(r, Err(IRSError::IdentityNotFound));
    assert_eq!(r.unwrap_err().code(), 321);
}

#[test]
fn delete_last_country_data_panics() {
    let mut s = IdentityRegistryStorage::new();
    add_identity(&mut s, ACCOUNT, IDENTITY, IdentityType::Individual, &vec![residence(840)]).unwrap();
    let r = delete_country_data(&mut s, ACCOUNT, 0);
    assert_eq!(r, Err(IRSError::EmptyCountryList));
    assert_eq!(r.unwrap_err().code(), 323);
}

#[test]
fn organization_country_relations_work_correctly() {
    let mut s = IdentityRegistryStorage::new();
    let inc = org(OrganizationCountryRelation::Incorporation(840));
    let op = org(OrganizationCountryRelation::OperatingJurisdiction(276));
    let tax = org(OrganizationCountryRelation::TaxJurisdiction(756));
    add_identity(&mut s, ACCOUNT, IDENTITY, IdentityType::Organization, &vec![inc.clone()]).unwrap();
    add_country_data_entries(&mut s, ACCOUNT, &vec![op.clone(), tax.clone()]).unwrap();
    let profile = get_identity_profile(&s, ACCOUNT).unwrap();
    assert_eq!(profile.identity_type, IdentityType::Organization);
    assert_eq!(profile.countries.len(), 3);
    assert_eq!(get_country_data(&s, ACCOUNT, 0), Ok(inc));
    assert_eq!(get_country_data(&s, ACCOUNT, 1), Ok(op));
    assert_eq!(get_country_data(&s, ACCOUNT, 2), Ok(tax));
}

#[test]
fn add_identity_panics_if_too_many_country_data() {
    let mut s = IdentityRegistryStorage::new();
    let list: Vec<CountryData> = (0..=MAX_COUNTRY_ENTRIES).map(residence).collect();
    let r = add_identity(&mut s, ACCOUNT, IDENTITY, IdentityType::Individual, &list);
    assert_eq!(r, Err(IRSError::MaxCountryEntriesReached));
    assert_eq!(r.unwrap_err().code(), 324);
}

#[test]
fn add_country_data_entries_panics_if_too_many() {
    let mut s = IdentityRegistryStorage::new();
    let list: Vec<CountryData> = (0..MAX_COUNTRY_ENTRIES).map(residence).collect();
    add_identity(&mut s, ACCOUNT, IDENTITY, IdentityType::Individual, &list).unwrap();
    let r = add_country_data_entries(&mut s, ACCOUNT, &vec![residence(MAX_COUNTRY_ENTRIES)]);
    assert_eq!(r, Err(IRSError::MaxCountryEntriesReached));
    assert_eq!(r.unwrap_err().code(), 324);
    assert_eq!(get_country_data_entries(&s, ACCOUNT).len(), MAX_COUNTRY_ENTRIES as usize);
}

#[test]
fn modify_country_data_matching_type_succeeds() {
    let mut s = IdentityRegistryStorage::new();
    add_identity(&mut s, ACCOUNT, IDENTITY, IdentityType::Individual, &vec![residence(840)]).unwrap();
    let modified = citizenship(276);
    modify_country_data(&mut s, ACCOUNT, 0, &modified).unwrap();
    assert_eq!(get_country_data(&s, ACCOUNT, 0), Ok(modified));
}

#[test]
fn mixed_country_relations_succeeds() {
    let mut s = IdentityRegistryStorage::new();
    let inc = org(OrganizationCountryRelation::Incorporation(840));
    let ind = residence(276);
    add_identity(&mut s, ACCOUNT, IDENTITY, IdentityType::Organization, &vec![inc.clone(), ind.clone()])
        .unwrap();
    let profile = get_identity_profile(&s, ACCOUNT).unwrap();
    assert_eq!(profile.identity_type, IdentityType::Organization);
    assert_eq!(profile.countries.len(), 2);
    assert_eq!(get_country_data(&s, ACCOUNT, 0), Ok(inc));
    assert_eq!(get_country_data(&s, ACCOUNT, 1), Ok(ind));
}

#[test]
fn recover_identity_success() {
    let mut s = IdentityRegistryStorage::new();
    let d1 = residence(840);
    let d2 = citizenship(276);
    add_identity(&mut s, ACCOUNT, IDENTITY, IdentityType::Individual, &vec![d1.clone(), d2.clone()])
        .unwrap();
    recover_identity(&mut s, ACCOUNT, NEW_ACCOUNT).unwrap();
    assert_eq!(stored_identity(&s, NEW_ACCOUNT), Ok(IDENTITY));
    let profile = get_identity_profile(&s, NEW_ACCOUNT).unwrap();
    assert_eq!(profile.identity_type, IdentityType::Individual);
    assert_eq!(profile.countries.len(), 2);
    assert_eq!(get_country_data(&s, NEW_ACCOUNT, 0), Ok(d1));
    assert_eq!(get_country_data(&s, NEW_ACCOUNT, 1), Ok(d2));
    assert_eq!(get_recovered_to(&s, ACCOUNT), Some(NEW_ACCOUNT));
}

#[test]
fn recover_identity_old_account_not_found() {
    let mut s = IdentityRegistryStorage::new();
    let r = recover_identity(&mut s, ACCOUNT, NEW_ACCOUNT);
    assert_eq!(r, Err(IRSError::IdentityNotFound));
    assert_eq!(r.unwrap_err().code(), 321);
}

#[test]
fn recover_identity_new_account_already_has_identity() {
    let mut s = IdentityRegistryStorage::new();
    add_identity(&mut s, ACCOUNT, IDENTITY, IdentityType::Individual, &vec![residence(840)]).unwrap();
    add_identity(&mut s, NEW_ACCOUNT, IDENTITY2, IdentityType::Individual, &vec![residence(840)])
        .unwrap();
    let r = recover_identity(&mut s, ACCOUNT, NEW_ACCOUNT);
    assert_eq!(r, Err(IRSError::IdentityOverwrite));
    assert_eq!(r.unwrap_err().code(), 320);
}

#[test]
fn recover_identity_removes_old_account_identity() {
    let mut s = IdentityRegistryStorage::new();
    add_identity(&mut s, ACCOUNT, IDENTITY, IdentityType::Individual, &vec![residence(840)]).unwrap();
    recover_identity(&mut s, ACCOUNT, NEW_ACCOUNT).unwrap();
    let r = stored_identity(&s, ACCOUNT);
    assert_eq!(r, Err(IRSError::IdentityNotFound));
    assert_eq!(r.unwrap_err().code(), 321);
}

#[test]
fn add_identity_rejects_empty_country_list() {
    let mut s = IdentityRegistryStorage::new();
    let r = add_identity(&mut s, ACCOUNT, IDENTITY, IdentityType::Individual, &vec![]);
    assert_eq!(r, Err(IRSError::EmptyCountryList));
    assert_eq!(stored_identity(&s, ACCOUNT), Err(IRSError::IdentityNotFound));
}

#[test]
fn individual_identity_refuses_organization_relations() {
    let mut s = IdentityRegistryStorage::new();
    let inc = org(OrganizationCountryRelation::Incorporation(840));
    let r = add_identity(&mut s, ACCOUNT, IDENTITY, IdentityType::Individual, &vec![residence(840), inc.clone()]);
    assert_eq!(r, Err(IRSError::CountryRelationMismatch));
    assert_eq!(r.unwrap_err().code(), 326);
    assert_eq!(stored_identity(&s, ACCOUNT), Err(IRSError::IdentityNotFound));
    add_identity(&mut s, ACCOUNT, IDENTITY, IdentityType::Individual, &vec![residence(840)]).unwrap();
    assert_eq!(
        add_country_data_entries(&mut s, ACCOUNT, &vec![citizenship(276), inc.clone()]),
        Err(IRSError::CountryRelationMismatch)
    );
    assert_eq!(
        modify_country_data(&mut s, ACCOUNT, 0, &inc),
        Err(IRSError::CountryRelationMismatch)
    );
    assert_eq!(get_country_data_entries(&s, ACCOUNT).len(), 1);
    assert_eq!(get_country_data(&s, ACCOUNT, 0), Ok(residence(840)));
}

#[test]
fn add_country_data_entries_without_identity_fails() {
    let mut s = IdentityRegistryStorage::new();
    let r = add_country_data_entries(&mut s, ACCOUNT, &vec![residence(840)]);
    assert_eq!(r, Err(IRSError::IdentityNotFound));
    assert_eq!(r.unwrap_err().code(), 321);
}

#[test]
fn every_error_has_its_code() {
    let codes = [
        (IRSError::IdentityOverwrite, 320),
        (IRSError::IdentityNotFound, 321),
        (IRSError::CountryDataNotFound, 322),
        (IRSError::EmptyCountryList, 323),
        (IRSError::MaxCountryEntriesReached, 324),
        (IRSError::AccountRecovered, 325),
        (IRSError::CountryRelationMismatch, 326),
    ];
    for (e, c) in codes {
        assert_eq!(e.code(), c);
    }
}
