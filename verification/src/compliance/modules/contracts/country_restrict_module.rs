//! Country restriction list as a self-contained module contract: a transfer
//! or mint is blocked when any country code of the recipient's identity is
//! restricted for the token. The bookkeeping hooks do nothing.

use super::super::country_restrict::no_code_in;
use super::super::storage::IRSRead;
use super::{ContractCore, ContractError};
use crate::common::{lemma_pair_injective, pair, pair_key, Address};
use crate::identity_registry_storage::{country_code, entries_view};
use std::collections::HashSet;
use std::string::String;
use std::vec::Vec;
use vstd::prelude::*;

verus! {

broadcast use {vstd::std_specs::hash::group_hash_axioms, vstd::seq_lib::lemma_seq_contains_after_push};

/// The contract's state.
pub struct CountryRestrictModule {
    base: ContractCore,
    restricted: HashSet<u128>,
}

impl CountryRestrictModule {
    /// Whether `country` is restricted for `token`.
    pub closed spec fn restricts(&self, token: Address, country: u32) -> bool {
        self.restricted@.contains(pair(token, country as u64))
    }

    /// The shared contract state.
    pub closed spec fn base(&self) -> ContractCore {
        self.base
    }

    /// Nothing restricted, nothing bound.
    pub fn new() -> (s: Self)
        ensures
            forall|t: Address, c: u32| !#[trigger] s.restricts(t, c),
            s.base().compliance() is None,
            forall|t: Address| #[trigger] s.base().registry_of(t) is None,
    {
        CountryRestrictModule { base: ContractCore::new(), restricted: HashSet::new() }
    }

    /// Binds `irs` as the identity registry of `token`.
    pub fn set_identity_registry_storage(&mut self, token: Address, irs: Address)
        ensures
            final(self).base().registry_of(token) == Some(irs),
            forall|t: Address| t != token ==> #[trigger] final(self).base().registry_of(t) == old(self).base().registry_of(t),
            forall|t: Address, c: u32| #[trigger] final(self).restricts(t, c) == old(self).restricts(t, c),
    {
        self.base.set_irs_address(token, irs);
    }

    /// Restricts `country` for `token`.
    pub fn add_country_restriction(&mut self, token: Address, country: u32)
        ensures
            final(self).restricts(token, country),
            forall|t: Address, c: u32|
                !(t == token && c == country) ==> #[trigger] final(self).restricts(t, c) == old(self).restricts(t, c),
            final(self).base() == old(self).base(),
    {
        self.restricted.insert(pair_key(token, country as u64));
        proof {
            assert forall|t: Address, c: u32| !(t == token && c == country) implies #[trigger] final(self).restricts(t, c)
                == old(self).restricts(t, c) by {
                lemma_pair_injective(t, c as u64, token, country as u64);
            }
        }
    }

    /// Lifts the restriction of `country` for `token`.
    pub fn remove_country_restriction(&mut self, token: Address, country: u32)
        ensures
            !final(self).restricts(token, country),
            forall|t: Address, c: u32|
                !(t == token && c == country) ==> #[trigger] final(self).restricts(t, c) == old(self).restricts(t, c),
            final(self).base() == old(self).base(),
    {
        self.restricted.remove(&pair_key(token, country as u64));
        proof {
            assert forall|t: Address, c: u32| !(t == token && c == country) implies #[trigger] final(self).restricts(t, c)
                == old(self).restricts(t, c) by {
                lemma_pair_injective(t, c as u64, token, country as u64);
            }
        }
    }

    /// Restricts every country of `countries` for `token`.
    pub fn batch_restrict_countries(&mut self, token: Address, countries: &Vec<u32>)
        ensures
            forall|c: u32| #[trigger] final(self).restricts(token, c) == (old(self).restricts(token, c) || countries@.contains(c)),
            forall|t: Address, c: u32| t != token ==> #[trigger] final(self).restricts(t, c) == old(self).restricts(t, c),
            final(self).base() == old(self).base(),
    {
        let mut i: usize = 0;
        while i < countries.len()
            invariant
                i <= countries.len(),
                forall|c: u32| #[trigger] self.restricts(token, c) == (old(self).restricts(token, c) || countries@.take(i as int).contains(c)),
                forall|t: Address, c: u32| t != token ==> #[trigger] self.restricts(t, c) == old(self).restricts(t, c),
                self.base() == old(self).base(),
            decreases countries.len() - i,
        {
            self.add_country_restriction(token, countries[i]);
            proof {
                assert(countries@.take(i + 1) =~= countries@.take(i as int).push(countries@[i as int]));
            }
            i = i + 1;
        }
        assert(countries@.take(countries@.len() as int) =~= countries@);
    }

    /// Lifts the restriction of every country of `countries` for `token`.
    pub fn batch_unrestrict_countries(&mut self, token: Address, countries: &Vec<u32>)
        ensures
            forall|c: u32| #[trigger] final(self).restricts(token, c) == (old(self).restricts(token, c) && !countries@.contains(c)),
            forall|t: Address, c: u32| t != token ==> #[trigger] final(self).restricts(t, c) == old(self).restricts(t, c),
            final(self).base() == old(self).base(),
    {
        let mut i: usize = 0;
        while i < countries.len()
            invariant
                i <= countries.len(),
                forall|c: u32| #[trigger] self.restricts(token, c) == (old(self).restricts(token, c) && !countries@.take(i as int).contains(c)),
                forall|t: Address, c: u32| t != token ==> #[trigger] self.restricts(t, c) == old(self).restricts(t, c),
                self.base() == old(self).base(),
            decreases countries.len() - i,
        {
            self.remove_country_restriction(token, countries[i]);
            proof {
                assert(countries@.take(i + 1) =~= countries@.take(i as int).push(countries@[i as int]));
            }
            i = i + 1;
        }
        assert(countries@.take(countries@.len() as int) =~= countries@);
    }

    /// Returns whether `country` is restricted for `token`.
    pub fn is_country_restricted(&self, token: Address, country: u32) -> (r: bool)
        ensures
            r == self.restricts(token, country),
    {
        self.restricted.contains(&pair_key(token, country as u64))
    }

    /// Records a transfer: nothing to record.
    pub fn on_transfer(&self, from: Address, to: Address, amount: i128, token: Address) {
    }

    /// Records a mint: nothing to record.
    pub fn on_created(&self, to: Address, amount: i128, token: Address) {
    }

    /// Records a burn: nothing to record.
    pub fn on_destroyed(&self, from: Address, amount: i128, token: Address) {
    }

    /// Returns whether a transfer to `to` passes: none of the recipient's
    /// country codes may be restricted. `irs` is the registry contract bound
    /// to `token`.
    ///
    /// # Errors
    ///
    /// * [`super::ModuleError::IdentityRegistryNotSet`] - When no registry is
    ///   bound to `token`.
    #[verifier::loop_isolation(false)]
    pub fn can_transfer<R: IRSRead>(&self, from: Address, to: Address, amount: i128, token: Address, irs: &R) -> (r: Result<bool, ContractError>)
        requires
            self.base().registry_of(token) is None || self.base().registry_of(token) == Some(irs.spec_address()),
        ensures
            self.base().registry_of(token) is None ==> r == Err::<bool, ContractError>(
                ContractError::Module(super::ModuleError::IdentityRegistryNotSet),
            ),
            self.base().registry_of(token) is Some ==> r == Ok::<bool, ContractError>(
                no_code_in(irs.spec_country_entries(to), |c: u32| self.restricts(token, c)),
            ),
    {
        match self.base.require_registry(token) {
            Err(e) => {
                return Err(e);
            },
            Ok(()) => {},
        }
        let entries = irs.get_country_data_entries(to);
        let ghost view = irs.spec_country_entries(to);
        let mut i: usize = 0;
        while i < entries.len()
            invariant
                i <= entries.len(),
                entries_view(entries@) == view,
                forall|j: int| 0 <= j < i ==> !self.restricts(token, #[trigger] view[j].relation.code),
            decreases entries.len() - i,
        {
            let code = country_code(&entries[i].country);
            proof {
                assert(view[i as int] == entries@[i as int]@);
            }
            if self.is_country_restricted(token, code) {
                proof {
                    let f = |c: u32| self.restricts(token, c);
                    assert(f(view[i as int].relation.code));
                }
                return Ok(false);
            }
            i = i + 1;
        }
        Ok(true)
    }

    /// Returns whether a mint to `to` passes; see [`Self::can_transfer`].
    ///
    /// # Errors
    ///
    /// * see [`Self::can_transfer`].
    pub fn can_create<R: IRSRead>(&self, to: Address, amount: i128, token: Address, irs: &R) -> (r: Result<bool, ContractError>)
        requires
            self.base().registry_of(token) is None || self.base().registry_of(token) == Some(irs.spec_address()),
        ensures
            self.base().registry_of(token) is None ==> r == Err::<bool, ContractError>(
                ContractError::Module(super::ModuleError::IdentityRegistryNotSet),
            ),
            self.base().registry_of(token) is Some ==> r == Ok::<bool, ContractError>(
                no_code_in(irs.spec_country_entries(to), |c: u32| self.restricts(token, c)),
            ),
    {
        self.can_transfer(to, to, 0, token, irs)
    }

    /// The contract's name.
    pub fn name(&self) -> (r: String)
        ensures
            r@ == "CountryRestrictModule"@,
    {
        String::from_str("CountryRestrictModule")
    }

    /// Returns the compliance contract, or `self_address` when none is set.
    pub fn get_compliance_address(&self, self_address: Address) -> (r: Address)
        ensures
            r == (match self.base().compliance() {
                Some(c) => c,
                None => self_address,
            }),
    {
        self.base.get_compliance_address(self_address)
    }

    /// Sets the compliance contract.
    pub fn set_compliance_address(&mut self, compliance: Address)
        ensures
            final(self).base().compliance() == Some(compliance),
            forall|t: Address| #[trigger] final(self).base().registry_of(t) == old(self).base().registry_of(t),
            forall|t: Address, c: u32| #[trigger] final(self).restricts(t, c) == old(self).restricts(t, c),
    {
        self.base.set_compliance_address(compliance);
    }
}

} // verus!
