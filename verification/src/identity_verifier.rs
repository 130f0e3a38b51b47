//! Claim-based identity verification: a wallet is verified when, for every
//! claim topic the token requires, at least one of the topic's trusted
//! issuers vouches for a claim held on the wallet's identity. A claim
//! counts for a topic and an issuer only when it is on that topic, was
//! issued by that issuer, and the issuer still accepts it.

use crate::common::Address;
use crate::compliance::modules::storage::IRSRead;
use crate::identity_claims::{claim_id, get_claim, spec_claim_id, Claim, ClaimView, IdentityClaimsStore};
use crate::rwa::RWAError;
use std::vec::Vec;
use vstd::prelude::*;

verus! {

/// A contract that issues claims and can tell whether a claim it issued
/// about an identity is (still) valid.
pub trait ClaimIssuer {
    /// Whether the issuer accepts the claim on `claim_topic` about
    /// `identity` with the given signature scheme, signature and data.
    spec fn accepts(
        &self,
        identity: Address,
        claim_topic: u32,
        scheme: u32,
        sig_data: Seq<u8>,
        claim_data: Seq<u8>,
    ) -> bool;

    /// Whether the claim on `claim_topic` about `identity`, with the given
    /// signature scheme, signature and data, is valid.
    fn is_claim_valid(
        &self,
        identity: Address,
        claim_topic: u32,
        scheme: u32,
        sig_data: &Vec<u8>,
        claim_data: &Vec<u8>,
    ) -> (r: bool)
        ensures
            r == self.accepts(identity, claim_topic, scheme, sig_data@, claim_data@),
    ;
}

/// The contracts an identity verifier consults: the claim topics and
/// issuers contract and the identity registry storage.
pub struct VerifierConfig {
    claim_topics_and_issuers: Option<Address>,
    identity_registry_storage: Option<Address>,
}

impl VerifierConfig {
    /// The claim topics and issuers contract, if set.
    pub closed spec fn topics_contract(&self) -> Option<Address> {
        self.claim_topics_and_issuers
    }

    /// The identity registry storage contract, if set.
    pub closed spec fn registry_contract(&self) -> Option<Address> {
        self.identity_registry_storage
    }

    /// Neither contract set.
    pub fn new() -> (s: Self)
        ensures
            s.topics_contract() is None,
            s.registry_contract() is None,
    {
        VerifierConfig { claim_topics_and_issuers: None, identity_registry_storage: None }
    }
}

/// Sets the claim topics and issuers contract.
pub fn set_claim_topics_and_issuers(s: &mut VerifierConfig, claim_topics_and_issuers: Address)
    ensures
        final(s).topics_contract() == Some(claim_topics_and_issuers),
        final(s).registry_contract() == old(s).registry_contract(),
{
    s.claim_topics_and_issuers = Some(claim_topics_and_issuers);
}

/// Returns the claim topics and issuers contract.
///
/// # Errors
///
/// * [`RWAError::ClaimTopicsAndIssuersNotSet`] - When it is not set.
pub fn claim_topics_and_issuers(s: &VerifierConfig) -> (r: Result<Address, RWAError>)
    ensures
        r == (match s.topics_contract() {
            Some(a) => Ok::<Address, RWAError>(a),
            None => Err::<Address, RWAError>(RWAError::ClaimTopicsAndIssuersNotSet),
        }),
{
    match s.claim_topics_and_issuers {
        Some(a) => Ok(a),
        None => Err(RWAError::ClaimTopicsAndIssuersNotSet),
    }
}

/// Sets the identity registry storage contract.
pub fn set_identity_registry_storage(s: &mut VerifierConfig, identity_registry_storage: Address)
    ensures
        final(s).registry_contract() == Some(identity_registry_storage),
        final(s).topics_contract() == old(s).topics_contract(),
{
    s.identity_registry_storage = Some(identity_registry_storage);
}

/// Returns the identity registry storage contract.
///
/// # Errors
///
/// * [`RWAError::IdentityRegistryStorageNotSet`] - When it is not set.
pub fn identity_registry_storage(s: &VerifierConfig) -> (r: Result<Address, RWAError>)
    ensures
        r == (match s.registry_contract() {
            Some(a) => Ok::<Address, RWAError>(a),
            None => Err::<Address, RWAError>(RWAError::IdentityRegistryStorageNotSet),
        }),
{
    match s.identity_registry_storage {
        Some(a) => Ok(a),
        None => Err(RWAError::IdentityRegistryStorageNotSet),
    }
}

/// Whether `claim` is on `claim_topic` and issued by `issuer`.
pub open spec fn claim_matches(claim: ClaimView, claim_topic: u32, issuer: Address) -> bool {
    claim.topic == claim_topic && claim.issuer == issuer
}

/// Whether `claim` counts for `claim_topic` and `issuer`, given whether
/// the issuer accepts it (`issuer_accepts`).
pub fn validate_claim_with(claim: &Claim, claim_topic: u32, issuer: Address, issuer_accepts: bool) -> (r:
    bool)
    ensures
        r == (claim_matches(claim@, claim_topic, issuer) && issuer_accepts),
{
    claim.topic == claim_topic && claim.issuer == issuer && issuer_accepts
}

/// Whether `claim` counts for `claim_topic` and the issuer `issuer`, whose
/// contract is `issuer_contract`, for the identity `identity`: the issuer
/// is asked only about a claim on that topic that it issued.
pub fn validate_claim<I: ClaimIssuer>(
    claim: &Claim,
    claim_topic: u32,
    issuer: Address,
    issuer_contract: &I,
    identity: Address,
) -> (r: bool)
    ensures
        r == (claim_matches(claim@, claim_topic, issuer) && issuer_contract.accepts(
            identity,
            claim_topic,
            claim.scheme,
            claim.signature@,
            claim.data@,
        )),
{
    if !(claim.topic == claim_topic && claim.issuer == issuer) {
        return false;
    }
    let accepts = issuer_contract.is_claim_valid(
        identity,
        claim_topic,
        claim.scheme,
        &claim.signature,
        &claim.data,
    );
    validate_claim_with(claim, claim_topic, issuer, accepts)
}

/// The value filed under `key` in `entries`, looking from position `i`
/// on: the first entry with that key wins.
pub open spec fn entry_from<T>(entries: Seq<(Address, T)>, key: Address, i: int) -> Option<T>
    decreases entries.len() - i,
{
    if i < 0 || i >= entries.len() {
        None
    } else if entries[i].0 == key {
        Some(entries[i].1)
    } else {
        entry_from(entries, key, i + 1)
    }
}

/// The value filed under `key` in `entries` (the first entry with that
/// key).
pub open spec fn entry_for<T>(entries: Seq<(Address, T)>, key: Address) -> Option<T> {
    entry_from(entries, key, 0)
}

/// Whether `issuer` vouches for `identity` on `claim_topic`: the
/// identity's claim store (found in `stores`) holds the claim that
/// `issuer` made on that topic, and the issuer's contract (found in
/// `issuers`) accepts it.
pub open spec fn vouches<I: ClaimIssuer>(
    stores: Seq<(Address, IdentityClaimsStore)>,
    issuers: Seq<(Address, I)>,
    identity: Address,
    claim_topic: u32,
    issuer: Address,
) -> bool {
    match entry_for(stores, identity) {
        None => false,
        Some(store) => match store.claim_with_id(spec_claim_id(issuer, claim_topic)) {
            None => false,
            Some(c) => claim_matches(c, claim_topic, issuer) && match entry_for(issuers, issuer) {
                None => false,
                Some(contract) => contract.accepts(identity, claim_topic, c.scheme, c.signature, c.data),
            },
        },
    }
}

/// Whether one of the trusted issuers of `entry` (a topic with its
/// trusted issuers) vouches for `identity` on that topic.
pub open spec fn topic_covered<I: ClaimIssuer>(
    stores: Seq<(Address, IdentityClaimsStore)>,
    issuers: Seq<(Address, I)>,
    identity: Address,
    entry: (u32, Vec<Address>),
) -> bool {
    exists|j: int|
        0 <= j < entry.1@.len() && #[trigger] vouches(stores, issuers, identity, entry.0, entry.1@[j])
}

/// Whether every required topic has at least one trusted issuer that
/// vouches for `identity`.
pub open spec fn identity_verified<I: ClaimIssuer>(
    required: Seq<(u32, Vec<Address>)>,
    stores: Seq<(Address, IdentityClaimsStore)>,
    issuers: Seq<(Address, I)>,
    identity: Address,
) -> bool {
    forall|i: int| 0 <= i < required.len() ==> #[trigger] topic_covered(stores, issuers, identity, required[i])
}

/// Any one trusted issuer of a topic suffices: when the issuer at any
/// position of the topic's trusted list vouches for `identity`, the topic
/// is covered, whichever the other issuers are and whatever they hold.
pub proof fn lemma_any_trusted_issuer_covers_topic<I: ClaimIssuer>(
    stores: Seq<(Address, IdentityClaimsStore)>,
    issuers: Seq<(Address, I)>,
    identity: Address,
    entry: (u32, Vec<Address>),
    j: int,
)
    requires
        0 <= j < entry.1@.len(),
        vouches(stores, issuers, identity, entry.0, entry.1@[j]),
    ensures
        topic_covered(stores, issuers, identity, entry),
{
}

/// A topic that no trusted issuer vouches for is not covered: coverage
/// always comes from an issuer of the topic's own trusted list.
pub proof fn lemma_covered_topic_has_a_voucher<I: ClaimIssuer>(
    stores: Seq<(Address, IdentityClaimsStore)>,
    issuers: Seq<(Address, I)>,
    identity: Address,
    entry: (u32, Vec<Address>),
)
    requires
        forall|j: int| 0 <= j < entry.1@.len() ==> !#[trigger] vouches(stores, issuers, identity, entry.0, entry.1@[j]),
    ensures
        !topic_covered(stores, issuers, identity, entry),
{
}

/// A verified identity has, for each required topic, a trusted issuer of
/// that topic who vouches for it.
pub proof fn lemma_verified_identity_is_vouched_on_each_topic<I: ClaimIssuer>(
    required: Seq<(u32, Vec<Address>)>,
    stores: Seq<(Address, IdentityClaimsStore)>,
    issuers: Seq<(Address, I)>,
    identity: Address,
    i: int,
)
    requires
        identity_verified(required, stores, issuers, identity),
        0 <= i < required.len(),
    ensures
        exists|j: int|
            0 <= j < required[i].1@.len() && #[trigger] vouches(
                stores,
                issuers,
                identity,
                required[i].0,
                required[i].1@[j],
            ),
{
    assert(topic_covered(stores, issuers, identity, required[i]));
}

/// With no required topic, every identity is verified.
pub proof fn lemma_no_required_topic_verifies_everyone<I: ClaimIssuer>(
    required: Seq<(u32, Vec<Address>)>,
    stores: Seq<(Address, IdentityClaimsStore)>,
    issuers: Seq<(Address, I)>,
    identity: Address,
)
    requires
        required.len() == 0,
    ensures
        identity_verified(required, stores, issuers, identity),
{
}

/// Returns the position of the first entry of `entries` filed under `key`.
fn find_entry<T>(entries: &Vec<(Address, T)>, key: Address) -> (r: Option<usize>)
    ensures
        match r {
            Some(k) => k < entries@.len() && entries@[k as int].0 == key && entry_for(entries@, key)
                == Some(entries@[k as int].1),
            None => entry_for(entries@, key) is None,
        },
{
    let mut i: usize = 0;
    while i < entries.len()
        invariant
            i <= entries.len(),
            entry_from(entries@, key, i as int) == entry_for(entries@, key),
        decreases entries.len() - i,
    {
        if entries[i].0 == key {
            return Some(i);
        }
        i = i + 1;
    }
    None
}

/// Computes [`vouches`], given where the identity's store is.
fn issuer_vouches<I: ClaimIssuer>(
    stores: &Vec<(Address, IdentityClaimsStore)>,
    store_at: Option<usize>,
    issuers: &Vec<(Address, I)>,
    identity: Address,
    claim_topic: u32,
    issuer: Address,
) -> (r: bool)
    requires
        forall|k: int| 0 <= k < stores@.len() ==> (#[trigger] stores@[k]).1.wf(),
        match store_at {
            Some(k) => k < stores@.len() && entry_for(stores@, identity) == Some(stores@[k as int].1),
            None => entry_for(stores@, identity) is None,
        },
    ensures
        r == vouches(stores@, issuers@, identity, claim_topic, issuer),
{
    let k = match store_at {
        Some(k) => k,
        None => {
            return false;
        },
    };
    let id = claim_id(issuer, claim_topic);
    let claim = match get_claim(&stores[k].1, &id) {
        Ok(c) => c,
        Err(_) => {
            return false;
        },
    };
    match find_entry(issuers, issuer) {
        Some(ix) => validate_claim(&claim, claim_topic, issuer, &issuers[ix].1, identity),
        None => false,
    }
}

/// Verifies `user`: its identity (looked up in the registry `irs`) must,
/// for every topic of `required`, hold a claim that one of the topic's
/// trusted issuers made and still accepts. `required` lists each required
/// topic with its trusted issuers; `stores` holds the claim store of each
/// identity and `issuers` the contract of each issuer.
///
/// # Errors
///
/// * [`RWAError::IdentityVerificationFailed`] - When `user` has no identity
///   or some required topic has no vouching issuer.
pub fn verify_identity<R: IRSRead, I: ClaimIssuer>(
    user: Address,
    irs: &R,
    required: &Vec<(u32, Vec<Address>)>,
    stores: &Vec<(Address, IdentityClaimsStore)>,
    issuers: &Vec<(Address, I)>,
) -> (r: Result<(), RWAError>)
    requires
        forall|k: int| 0 <= k < stores@.len() ==> (#[trigger] stores@[k]).1.wf(),
    ensures
        r is Err ==> r == Err::<(), RWAError>(RWAError::IdentityVerificationFailed),
        r is Ok <==> (match irs.spec_identity(user) {
            Some(identity) => identity_verified(required@, stores@, issuers@, identity),
            None => false,
        }),
{
    let identity = match irs.stored_identity(user) {
        Ok(i) => i,
        Err(_) => {
            return Err(RWAError::IdentityVerificationFailed);
        },
    };
    let store_at = find_entry(stores, identity);
    let mut i: usize = 0;
    while i < required.len()
        invariant
            i <= required.len(),
            irs.spec_identity(user) == Some(identity),
            forall|k: int| 0 <= k < stores@.len() ==> (#[trigger] stores@[k]).1.wf(),
            match store_at {
                Some(k) => k < stores@.len() && entry_for(stores@, identity) == Some(stores@[k as int].1),
                None => entry_for(stores@, identity) is None,
            },
            forall|m: int| 0 <= m < i ==> #[trigger] topic_covered(stores@, issuers@, identity, required@[m]),
        decreases required.len() - i,
    {
        let topic = required[i].0;
        let trusted = &required[i].1;
        let mut j: usize = 0;
        let mut found = false;
        while j < trusted.len()
            invariant
                j <= trusted.len(),
                trusted@ == required@[i as int].1@,
                topic == required@[i as int].0,
                forall|k: int| 0 <= k < stores@.len() ==> (#[trigger] stores@[k]).1.wf(),
                match store_at {
                    Some(k) => k < stores@.len() && entry_for(stores@, identity) == Some(
                        stores@[k as int].1,
                    ),
                    None => entry_for(stores@, identity) is None,
                },
                i < required@.len(),
                forall|m: int| 0 <= m < i ==> #[trigger] topic_covered(stores@, issuers@, identity, required@[m]),
                found ==> exists|jj: int|
                    0 <= jj < trusted@.len() && #[trigger] vouches(
                        stores@,
                        issuers@,
                        identity,
                        topic,
                        trusted@[jj],
                    ),
                !found ==> forall|jj: int|
                    0 <= jj < j ==> !#[trigger] vouches(stores@, issuers@, identity, topic, trusted@[jj]),
            decreases trusted.len() - j,
        {
            if !found {
                if issuer_vouches(stores, store_at, issuers, identity, topic, trusted[j]) {
                    found = true;
                }
            }
            j = j + 1;
        }
        if !found {
            proof {
                assert(trusted@ == required@[i as int].1@);
                assert(!topic_covered(stores@, issuers@, identity, required@[i as int]));
            }
            return Err(RWAError::IdentityVerificationFailed);
        }
        proof {
            assert(topic_covered(stores@, issuers@, identity, required@[i as int]));
        }
        i = i + 1;
    }
    assert(identity_verified(required@, stores@, issuers@, identity));
    Ok(())
}

} // verus!
