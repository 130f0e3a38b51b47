use rwa_tokens::compliance::modules::test_utils::MockClaimIssuer;
use rwa_tokens::compliance::modules::test_utils::MockIRS;
use rwa_tokens::identity_claims::{add_claim, Claim, IdentityClaimsStore};
use rwa_tokens::identity_verifier::{
    claim_topics_and_issuers, identity_registry_storage, set_claim_topics_and_issuers,
    set_identity_registry_storage, validate_claim, verify_identity, VerifierConfig,
};
use rwa_tokens::rwa::RWAError;

const ISSUER: u64 = 50;
const WRONG_ISSUER: u64 = 51;
const INVESTOR_ID: u64 = 60;
const USER: u64 = 70;
const IDENTITY_CLAIMS: u64 = 80;

fn construct_claim(issuer: u64, topic: u32) -> Claim {
    Claim {
        topic,
        scheme: 1,
        issuer,
        signature: vec![1, 2, 3, 4],
        data: vec![5, 6, 7, 8],
        uri: String::from("https://example.com"),
    }
}

#[test]
fn set_and_get_claim_topics_and_issuers() {
    let mut s = VerifierConfig::new();
    set_claim_topics_and_issuers(&mut s, 7);
    assert_eq!(claim_topics_and_issuers(&s), Ok(7));
}

#[test]
fn get_unset_claim_topics_and_issuers_fails() {
    let s = VerifierConfig::new();
    let r = claim_topics_and_issuers(&s);
    assert_eq!(r, Err(RWAError::ClaimTopicsAndIssuersNotSet));
    assert_eq!(r.unwrap_err().code(), 310);
}

#[test]
fn set_and_get_identity_registry_storage() {
    let mut s = VerifierConfig::new();
    set_identity_registry_storage(&mut s, 8);
    assert_eq!(identity_registry_storage(&s), Ok(8));
}

#[test]
fn get_unset_identity_registry_storage_fails() {
    let s = VerifierConfig::new();
    let r = identity_registry_storage(&s);
    assert_eq!(r, Err(RWAError::IdentityRegistryStorageNotSet));
    assert_eq!(r.unwrap_err().code(), 311);
}

#[test]
fn validate_claim_success() {
    let claim = construct_claim(ISSUER, 1);
    let issuer = MockClaimIssuer::new(true);
    assert!(validate_claim(&claim, 1, ISSUER, &issuer, INVESTOR_ID));
}

#[test]
fn validate_claim_wrong_topic() {
    let claim = construct_claim(ISSUER, 1);
    let issuer = MockClaimIssuer::new(true);
    assert!(!validate_claim(&claim, 2, ISSUER, &issuer, INVESTOR_ID));
}

#[test]
fn validate_claim_wrong_issuer() {
    let claim = construct_claim(ISSUER, 1);
    let wrong = MockClaimIssuer::new(true);
    assert!(!validate_claim(&claim, 1, WRONG_ISSUER, &wrong, INVESTOR_ID));
}

#[test]
fn validate_claim_invalid_signature() {
    let claim = construct_claim(ISSUER, 1);
    let issuer = MockClaimIssuer::new(false);
    assert!(!validate_claim(&claim, 1, ISSUER, &issuer, INVESTOR_ID));
}

/// The contracts of a verification: the registry links `USER` to the
/// identity `IDENTITY_CLAIMS`, whose store holds the claim that `issuer`
/// made on topic 1.
fn setup_verification_contracts(issuer: u64) -> (MockIRS, Vec<(u64, IdentityClaimsStore)>) {
    let mut irs = MockIRS::new();
    irs.mock_set_identity(USER, IDENTITY_CLAIMS);
    let mut store = IdentityClaimsStore::new();
    let c = construct_claim(issuer, 1);
    add_claim(&mut store, c.topic, c.scheme, c.issuer, &c.signature, &c.data, &c.uri);
    (irs, vec![(IDENTITY_CLAIMS, store)])
}

#[test]
fn verify_identity_success() {
    let (irs, stores) = setup_verification_contracts(ISSUER);
    let issuers = vec![(ISSUER, MockClaimIssuer::new(true))];
    let required = vec![(1u32, vec![ISSUER])];
    assert_eq!(verify_identity(USER, &irs, &required, &stores, &issuers), Ok(()));
}

#[test]
fn verify_identity_success_with_multiple_issuers() {
    // The claim on record is the second issuer's; the first issuer
    // rejects, the second vouches.
    let (irs, stores) = setup_verification_contracts(WRONG_ISSUER);
    let issuers = vec![
        (ISSUER, MockClaimIssuer::new(false)),
        (WRONG_ISSUER, MockClaimIssuer::new(true)),
    ];
    let required = vec![(1u32, vec![ISSUER, WRONG_ISSUER])];
    assert_eq!(verify_identity(USER, &irs, &required, &stores, &issuers), Ok(()));
}

#[test]
fn verify_identity_fails_all_issuers_invalid() {
    let (irs, stores) = setup_verification_contracts(ISSUER);
    let issuers = vec![
        (ISSUER, MockClaimIssuer::new(false)),
        (WRONG_ISSUER, MockClaimIssuer::new(false)),
    ];
    let required = vec![(1u32, vec![ISSUER, WRONG_ISSUER])];
    let r = verify_identity(USER, &irs, &required, &stores, &issuers);
    assert_eq!(r, Err(RWAError::IdentityVerificationFailed));
    assert_eq!(r.unwrap_err().code(), 304);
}

#[test]
fn verify_identity_needs_every_topic() {
    let (irs, stores) = setup_verification_contracts(ISSUER);
    let issuers = vec![(ISSUER, MockClaimIssuer::new(true))];
    // No claim on topic 2 is on record.
    let required = vec![(1u32, vec![ISSUER]), (2u32, vec![ISSUER])];
    assert_eq!(
        verify_identity(USER, &irs, &required, &stores, &issuers),
        Err(RWAError::IdentityVerificationFailed)
    );
    assert_eq!(verify_identity(USER, &irs, &vec![], &stores, &issuers), Ok(()));
    // An issuer without a known contract vouches for nothing.
    let none: Vec<(u64, MockClaimIssuer)> = vec![];
    assert_eq!(
        verify_identity(USER, &irs, &vec![(1u32, vec![ISSUER])], &stores, &none),
        Err(RWAError::IdentityVerificationFailed)
    );
}

#[test]
fn verify_identity_fails_without_identity() {
    let registry = rwa_tokens::identity_registry_storage::IdentityRegistryStorage::new();
    let (_, stores) = setup_verification_contracts(ISSUER);
    let issuers = vec![(ISSUER, MockClaimIssuer::new(true))];
    assert_eq!(
        verify_identity(USER, &registry, &vec![], &stores, &issuers),
        Err(RWAError::IdentityVerificationFailed)
    );
}
