use rwa_tokens::identity_claims::{
    add_claim, claim_id, get_claim, get_claim_ids_by_topic, remove_claim, ClaimsError,
    IdentityClaimsStore,
};

const ISSUER: u64 = 0x0102_0304_0506_0708;
const ISSUER2: u64 = 77;

fn sig() -> Vec<u8> {
    vec![1, 2, 3, 4]
}

fn data() -> Vec<u8> {
    vec![5, 6, 7, 8]
}

#[test]
fn add_claim_success() {
    let mut s = IdentityClaimsStore::new();
    let uri = String::from("https://example.com");
    let id = add_claim(&mut s, 1, 1, ISSUER, &sig(), &data(), &uri);
    let claim = get_claim(&s, &id).unwrap();
    assert_eq!(claim.topic, 1);
    assert_eq!(claim.scheme, 1);
    assert_eq!(claim.issuer, ISSUER);
    assert_eq!(claim.signature, sig());
    assert_eq!(claim.data, data());
    assert_eq!(claim.uri, uri);
    let ids = get_claim_ids_by_topic(&s, 1);
    assert_eq!(ids.len(), 1);
    assert_eq!(ids[0], id);
}

#[test]
fn update_existing_claim() {
    let mut s = IdentityClaimsStore::new();
    let id1 = add_claim(&mut s, 1, 1, ISSUER, &sig(), &data(), &String::from("https://example1.com"));
    let sig2 = vec![9, 10, 11, 12];
    let data2 = vec![13, 14, 15, 16];
    let uri2 = String::from("https://example2.com");
    let id2 = add_claim(&mut s, 1, 1, ISSUER, &sig2, &data2, &uri2);
    assert_eq!(id1, id2);
    let claim = get_claim(&s, &id1).unwrap();
    assert_eq!(claim.signature, sig2);
    assert_eq!(claim.data, data2);
    assert_eq!(claim.uri, uri2);
    assert_eq!(get_claim_ids_by_topic(&s, 1).len(), 1);
}

#[test]
fn multiple_claims_different_topics() {
    let mut s = IdentityClaimsStore::new();
    let uri = String::from("https://example.com");
    let id1 = add_claim(&mut s, 1, 1, ISSUER, &sig(), &data(), &uri);
    let id2 = add_claim(&mut s, 2, 1, ISSUER, &sig(), &data(), &uri);
    let id3 = add_claim(&mut s, 1, 1, ISSUER, &sig(), &data(), &uri);
    assert_eq!(id1, id3);
    assert_ne!(id1, id2);
    assert_eq!(get_claim_ids_by_topic(&s, 1).len(), 1);
    assert_eq!(get_claim_ids_by_topic(&s, 2).len(), 1);
    assert_eq!(get_claim_ids_by_topic(&s, 3).len(), 0);
}

#[test]
fn multiple_issuers_same_topic() {
    let mut s = IdentityClaimsStore::new();
    let uri = String::from("https://example.com");
    let id1 = add_claim(&mut s, 1, 1, ISSUER, &sig(), &data(), &uri);
    let id2 = add_claim(&mut s, 1, 1, ISSUER2, &sig(), &data(), &uri);
    assert_ne!(id1, id2);
    let ids = get_claim_ids_by_topic(&s, 1);
    assert_eq!(ids.len(), 2);
    assert!(ids.contains(&id1));
    assert!(ids.contains(&id2));
}

#[test]
fn get_nonexistent_claim() {
    let s = IdentityClaimsStore::new();
    let r = get_claim(&s, &[0u8; 32]);
    assert_eq!(r, Err(ClaimsError::ClaimNotFound));
    assert_eq!(r.unwrap_err().code(), 1);
}

#[test]
fn claim_removal() {
    let mut s = IdentityClaimsStore::new();
    let id = add_claim(&mut s, 1, 1, ISSUER, &sig(), &data(), &String::from("https://example.com"));
    assert_eq!(get_claim(&s, &id).unwrap().topic, 1);
    let ids = get_claim_ids_by_topic(&s, 1);
    assert_eq!(ids.len(), 1);
    assert_eq!(ids[0], id);
    remove_claim(&mut s, &id).unwrap();
    assert_eq!(get_claim_ids_by_topic(&s, 1).len(), 0);
    assert_eq!(get_claim(&s, &id), Err(ClaimsError::ClaimNotFound));
}

#[test]
fn remove_nonexistent_claim() {
    let mut s = IdentityClaimsStore::new();
    let r = remove_claim(&mut s, &[0u8; 32]);
    assert_eq!(r, Err(ClaimsError::ClaimNotFound));
    assert_eq!(r.unwrap_err().code(), 1);
}

#[test]
fn claim_id_encodes_issuer_and_topic() {
    let id = claim_id(ISSUER, 0x0a0b_0c0d);
    let mut expected = [0u8; 32];
    expected[..8].copy_from_slice(&[1, 2, 3, 4, 5, 6, 7, 8]);
    expected[8..12].copy_from_slice(&[0x0a, 0x0b, 0x0c, 0x0d]);
    assert_eq!(id, expected);
    assert_ne!(claim_id(ISSUER, 1), claim_id(ISSUER, 2));
    assert_ne!(claim_id(ISSUER, 1), claim_id(ISSUER2, 1));
}
