//! Stand-ins for the contracts a compliance module talks to: an identity
//! registry in which every wallet is its own identity unless told
//! otherwise, and a token whose balances are set by hand.

use super::storage::IRSRead;
use crate::common::Address;
use crate::identity_verifier::ClaimIssuer;
use crate::identity_registry_storage::{copy_entries, entries_view, CountryData, CountryDataView, IRSError};
use std::collections::HashMap;
use std::vec::Vec;
use vstd::prelude::*;

verus! {

broadcast use vstd::std_specs::hash::group_hash_axioms;

/// A minimal identity registry: a wallet without an explicit identity is
/// its own identity, and a wallet without country data has none.
pub struct MockIRS {
    address: Address,
    identities: HashMap<Address, Address>,
    countries: HashMap<Address, Vec<CountryData>>,
}

impl MockIRS {
    /// The identity set for `account`, if any.
    pub closed spec fn identity_set(&self, account: Address) -> Option<Address> {
        if self.identities@.contains_key(account) {
            Some(self.identities@[account])
        } else {
            None
        }
    }

    /// The country data set for `account` (empty by default).
    pub closed spec fn countries_set(&self, account: Address) -> Seq<CountryDataView> {
        if self.countries@.contains_key(account) {
            entries_view(self.countries@[account]@)
        } else {
            Seq::empty()
        }
    }

    /// The address the registry stands at.
    pub closed spec fn address_of(&self) -> Address {
        self.address
    }

    /// No identity and no country data set, at address 0.
    pub fn new() -> (s: Self)
        ensures
            s.address_of() == 0,
            forall|a: Address| #[trigger] s.identity_set(a) is None && s.countries_set(a) == Seq::<CountryDataView>::empty(),
    {
        Self::at(0)
    }

    /// No identity and no country data set, at `address`.
    pub fn at(address: Address) -> (s: Self)
        ensures
            s.address_of() == address,
            forall|a: Address| #[trigger] s.identity_set(a) is None && s.countries_set(a) == Seq::<CountryDataView>::empty(),
    {
        MockIRS { address, identities: HashMap::new(), countries: HashMap::new() }
    }

    /// Links `account` to `identity`.
    pub fn mock_set_identity(&mut self, account: Address, identity: Address)
        ensures
            final(self).address_of() == old(self).address_of(),
            final(self).identity_set(account) == Some(identity),
            forall|a: Address| a != account ==> #[trigger] final(self).identity_set(a) == old(self).identity_set(a),
            forall|a: Address| #[trigger] final(self).countries_set(a) == old(self).countries_set(a),
    {
        self.identities.insert(account, identity);
    }

    /// Sets the country data of `account`.
    pub fn mock_set_countries(&mut self, account: Address, data: &Vec<CountryData>)
        ensures
            final(self).address_of() == old(self).address_of(),
            final(self).countries_set(account) == entries_view(data@),
            forall|a: Address| a != account ==> #[trigger] final(self).countries_set(a) == old(self).countries_set(a),
            forall|a: Address| #[trigger] final(self).identity_set(a) == old(self).identity_set(a),
    {
        let copy = copy_entries(data);
        self.countries.insert(account, copy);
    }
}

impl IRSRead for MockIRS {
    open spec fn spec_address(&self) -> Address {
        self.address_of()
    }

    open spec fn spec_identity(&self, account: Address) -> Option<Address> {
        match self.identity_set(account) {
            Some(i) => Some(i),
            None => Some(account),
        }
    }

    open spec fn spec_recovered_to(&self, account: Address) -> Option<Address> {
        None
    }

    open spec fn spec_country_entries(&self, account: Address) -> Seq<CountryDataView> {
        self.countries_set(account)
    }

    fn stored_identity(&self, account: Address) -> (r: Result<Address, IRSError>) {
        match self.identities.get(&account) {
            Some(i) => Ok(*i),
            None => Ok(account),
        }
    }

    fn get_recovered_to(&self, account: Address) -> (r: Option<Address>) {
        None
    }

    fn get_country_data_entries(&self, account: Address) -> (r: Vec<CountryData>) {
        match self.countries.get(&account) {
            Some(v) => copy_entries(v),
            None => Vec::new(),
        }
    }
}

/// A token whose balances are set by hand (zero by default).
pub struct MockToken {
    balances: HashMap<Address, i128>,
}

impl MockToken {
    /// The balance of `id`.
    pub closed spec fn balance_of(&self, id: Address) -> i128 {
        if self.balances@.contains_key(id) {
            self.balances@[id]
        } else {
            0
        }
    }

    /// Every balance zero.
    pub fn new() -> (s: Self)
        ensures
            forall|a: Address| #[trigger] s.balance_of(a) == 0,
    {
        MockToken { balances: HashMap::new() }
    }

    /// Returns the balance of `id`.
    pub fn balance(&self, id: Address) -> (r: i128)
        ensures
            r == self.balance_of(id),
    {
        match self.balances.get(&id) {
            Some(b) => *b,
            None => 0,
        }
    }

    /// Sets the balance of `id`.
    pub fn mock_set_balance(&mut self, id: Address, amount: i128)
        ensures
            final(self).balance_of(id) == amount,
            forall|a: Address| a != id ==> #[trigger] final(self).balance_of(a) == old(self).balance_of(a),
    {
        self.balances.insert(id, amount);
    }
}

/// A claim issuer whose verdict on every claim is fixed when it is made.
pub struct MockClaimIssuer {
    claim_ok: bool,
}

impl MockClaimIssuer {
    /// The fixed verdict.
    pub closed spec fn verdict(&self) -> bool {
        self.claim_ok
    }

    /// An issuer that answers `claim_ok` about every claim.
    pub fn new(claim_ok: bool) -> (s: Self)
        ensures
            s.verdict() == claim_ok,
    {
        MockClaimIssuer { claim_ok }
    }
}

impl ClaimIssuer for MockClaimIssuer {
    open spec fn accepts(
        &self,
        identity: Address,
        claim_topic: u32,
        scheme: u32,
        sig_data: Seq<u8>,
        claim_data: Seq<u8>,
    ) -> bool {
        self.verdict()
    }

    fn is_claim_valid(
        &self,
        identity: Address,
        claim_topic: u32,
        scheme: u32,
        sig_data: &Vec<u8>,
        claim_data: &Vec<u8>,
    ) -> (r: bool) {
        self.claim_ok
    }
}

} // verus!
