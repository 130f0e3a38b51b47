//! Country allowlist: only recipients whose identity has at least one
//! country code on the token's allowlist may receive tokens. Only the
//! recipient's country data is consulted; the sender and the amount play no
//! part. A recipient is admitted as soon as one of its country codes is
//! allowed, whatever the relation type of that entry.

use super::storage::IRSRead;
use super::ComplianceModuleError;
use crate::common::{lemma_pair_injective, pair, pair_key, Address};
use crate::compliance::TransferKind;
use crate::identity_registry_storage::{country_code, CountryDataView};
use std::collections::HashSet;
use std::vec::Vec;
use vstd::prelude::*;

verus! {

broadcast use {vstd::std_specs::hash::group_hash_axioms, vstd::seq_lib::lemma_seq_contains_after_push};

/// The module's state: the allowed `(token, country)` pairs.
pub struct CountryAllow {
    allowed: HashSet<u128>,
}

/// Whether one of `entries` carries a country code that `allowed` admits.
pub open spec fn any_code_in(entries: Seq<CountryDataView>, allowed: spec_fn(u32) -> bool) -> bool {
    exists|i: int| 0 <= i < entries.len() && allowed(#[trigger] entries[i].relation.code)
}

impl CountryAllow {
    /// Whether `country` is on the allowlist of `token`.
    pub closed spec fn allows(&self, token: Address, country: u32) -> bool {
        self.allowed@.contains(pair(token, country as u64))
    }

    /// An empty allowlist for every token.
    pub fn new() -> (s: Self)
        ensures
            forall|t: Address, c: u32| !#[trigger] s.allows(t, c),
    {
        CountryAllow { allowed: HashSet::new() }
    }
}

/// Returns whether `country` is on the allowlist of `token`.
pub fn is_country_allowed(s: &CountryAllow, token: Address, country: u32) -> (r: bool)
    ensures
        r == s.allows(token, country),
{
    s.allowed.contains(&pair_key(token, country as u64))
}

/// Returns whether `account` has at least one allowed country for `token`,
/// reading its country data from the registry `irs`.
///
/// # Errors
///
/// * [`ComplianceModuleError::IdentityRegistryNotSet`] - When no registry is
///   configured for `token` (`irs` is `None`).
#[verifier::loop_isolation(false)]
pub fn can_receive<R: IRSRead>(s: &CountryAllow, account: Address, token: Address, irs: Option<&R>) -> (r:
    Result<bool, ComplianceModuleError>)
    ensures
        irs is None ==> r == Err::<bool, ComplianceModuleError>(
            ComplianceModuleError::IdentityRegistryNotSet,
        ),
        irs matches Some(reg) ==> r == Ok::<bool, ComplianceModuleError>(
            any_code_in(reg.spec_country_entries(account), |c: u32| s.allows(token, c)),
        ),
{
    let reg = match irs {
        Some(reg) => reg,
        None => {
            return Err(ComplianceModuleError::IdentityRegistryNotSet);
        },
    };
    let entries = reg.get_country_data_entries(account);
    let ghost view = reg.spec_country_entries(account);
    let mut i: usize = 0;
    while i < entries.len()
        invariant
            i <= entries.len(),
            crate::identity_registry_storage::entries_view(entries@) == view,
            forall|j: int| 0 <= j < i ==> !s.allows(token, #[trigger] view[j].relation.code),
        decreases entries.len() - i,
    {
        let code = country_code(&entries[i].country);
        proof {
            assert(view[i as int] == entries@[i as int]@);
        }
        if is_country_allowed(s, token, code) {
            proof {
                assert(s.allows(token, view[i as int].relation.code));
            }
            return Ok(true);
        }
        i = i + 1;
    }
    Ok(false)
}

/// Rejects a transfer whose recipient has no allowed country. Forced
/// transfers are exempt.
///
/// # Errors
///
/// * [`ComplianceModuleError::CountryNotAllowed`] - When the recipient has no
///   allowed country and the transfer is not forced.
/// * see [`can_receive`].
pub fn on_transfer<R: IRSRead>(
    s: &CountryAllow,
    to: Address,
    kind: TransferKind,
    token: Address,
    irs: Option<&R>,
) -> (r: Result<(), ComplianceModuleError>)
    ensures
        kind == TransferKind::Forced ==> r is Ok,
        kind != TransferKind::Forced && irs is None ==> r == Err::<(), ComplianceModuleError>(
            ComplianceModuleError::IdentityRegistryNotSet,
        ),
        kind != TransferKind::Forced ==> (irs matches Some(reg) ==> (r is Ok <==> any_code_in(
            reg.spec_country_entries(to),
            |c: u32| s.allows(token, c),
        ))),
        r is Err && irs is Some ==> r == Err::<(), ComplianceModuleError>(
            ComplianceModuleError::CountryNotAllowed,
        ),
{
    if kind == TransferKind::Forced {
        return Ok(());
    }
    match can_receive(s, to, token, irs) {
        Ok(true) => Ok(()),
        Ok(false) => Err(ComplianceModuleError::CountryNotAllowed),
        Err(e) => Err(e),
    }
}

/// Rejects a mint whose recipient has no allowed country.
///
/// # Errors
///
/// * [`ComplianceModuleError::CountryNotAllowed`] - When the recipient has no
///   allowed country.
/// * see [`can_receive`].
pub fn on_created<R: IRSRead>(s: &CountryAllow, to: Address, token: Address, irs: Option<&R>) -> (r:
    Result<(), ComplianceModuleError>)
    ensures
        irs is None ==> r == Err::<(), ComplianceModuleError>(
            ComplianceModuleError::IdentityRegistryNotSet,
        ),
        irs matches Some(reg) ==> (r is Ok <==> any_code_in(
            reg.spec_country_entries(to),
            |c: u32| s.allows(token, c),
        )),
        r is Err && irs is Some ==> r == Err::<(), ComplianceModuleError>(
            ComplianceModuleError::CountryNotAllowed,
        ),
{
    match can_receive(s, to, token, irs) {
        Ok(true) => Ok(()),
        Ok(false) => Err(ComplianceModuleError::CountryNotAllowed),
        Err(e) => Err(e),
    }
}

/// Records `country` as allowed for `token`.
pub fn set_country_allowed(s: &mut CountryAllow, token: Address, country: u32)
    ensures
        final(s).allows(token, country),
        forall|t: Address, c: u32|
            !(t == token && c == country) ==> #[trigger] final(s).allows(t, c) == old(s).allows(t, c),
{
    s.allowed.insert(pair_key(token, country as u64));
    proof {
        assert forall|t: Address, c: u32| !(t == token && c == country) implies #[trigger] final(s).allows(t, c)
            == old(s).allows(t, c) by {
            lemma_pair_injective(t, c as u64, token, country as u64);
        }
    }
}

/// Removes `country` from the allowlist of `token`.
pub fn remove_country_allowed(s: &mut CountryAllow, token: Address, country: u32)
    ensures
        !final(s).allows(token, country),
        forall|t: Address, c: u32|
            !(t == token && c == country) ==> #[trigger] final(s).allows(t, c) == old(s).allows(t, c),
{
    s.allowed.remove(&pair_key(token, country as u64));
    proof {
        assert forall|t: Address, c: u32| !(t == token && c == country) implies #[trigger] final(s).allows(t, c)
            == old(s).allows(t, c) by {
            lemma_pair_injective(t, c as u64, token, country as u64);
        }
    }
}

/// Adds `country` to the allowlist of `token`; returns whether it was newly
/// added (an already allowed country is left as is and reported `false`,
/// and no allow event is due for it).
pub fn add_allowed_country(s: &mut CountryAllow, token: Address, country: u32) -> (added: bool)
    ensures
        added == !old(s).allows(token, country),
        final(s).allows(token, country),
        forall|t: Address, c: u32|
            !(t == token && c == country) ==> #[trigger] final(s).allows(t, c) == old(s).allows(t, c),
{
    if !is_country_allowed(s, token, country) {
        set_country_allowed(s, token, country);
        true
    } else {
        false
    }
}

/// Removes `country` from the allowlist of `token`; returns whether it was
/// allowed (a country that is not allowed is reported `false`, and no
/// unallow event is due for it).
pub fn remove_allowed_country(s: &mut CountryAllow, token: Address, country: u32) -> (removed: bool)
    ensures
        removed == old(s).allows(token, country),
        !final(s).allows(token, country),
        forall|t: Address, c: u32|
            !(t == token && c == country) ==> #[trigger] final(s).allows(t, c) == old(s).allows(t, c),
{
    if is_country_allowed(s, token, country) {
        remove_country_allowed(s, token, country);
        true
    } else {
        false
    }
}

/// Adds every country of `countries` to the allowlist of `token`; returns
/// the countries that were newly added, each once, in the order they were
/// added.
pub fn batch_allow_countries(s: &mut CountryAllow, token: Address, countries: &Vec<u32>) -> (added:
    Vec<u32>)
    ensures
        forall|c: u32|
            #[trigger] final(s).allows(token, c) == (old(s).allows(token, c) || countries@.contains(c)),
        forall|t: Address, c: u32| t != token ==> #[trigger] final(s).allows(t, c) == old(s).allows(t, c),
        forall|c: u32|
            #[trigger] added@.contains(c) == (countries@.contains(c) && !old(s).allows(token, c)),
        added@.no_duplicates(),
{
    let mut added: Vec<u32> = Vec::new();
    let mut i: usize = 0;
    while i < countries.len()
        invariant
            i <= countries.len(),
            forall|c: u32|
                #[trigger] s.allows(token, c) == (old(s).allows(token, c) || countries@.take(
                    i as int,
                ).contains(c)),
            forall|t: Address, c: u32| t != token ==> #[trigger] s.allows(t, c) == old(s).allows(t, c),
            forall|c: u32|
                #[trigger] added@.contains(c) == (countries@.take(i as int).contains(c) && !old(
                    s,
                ).allows(token, c)),
            added@.no_duplicates(),
        decreases countries.len() - i,
    {
        let c = countries[i];
        let ghost before = added@;
        let newly = add_allowed_country(s, token, c);
        if newly {
            added.push(c);
        }
        proof {
            assert(countries@.take(i + 1) =~= countries@.take(i as int).push(c));
            assert forall|x: u32| #[trigger] added@.contains(x) == (countries@.take(i + 1).contains(x)
                && !old(s).allows(token, x)) by {
                if added@.contains(x) && x != c {
                    let k = choose|k: int| 0 <= k < added@.len() && added@[k] == x;
                    assert(before[k] == x);
                }
                if x != c && before.contains(x) {
                    let k = choose|k: int| 0 <= k < before.len() && before[k] == x;
                    assert(added@[k] == x);
                }
                if x == c && newly {
                    assert(added@[added@.len() - 1] == c);
                }
            }
            if newly {
                assert(!before.contains(c));
                assert forall|a: int, b: int| 0 <= a < b < added@.len() implies added@[a] != added@[b] by {
                    if b == added@.len() - 1 {
                        assert(before[a] == added@[a]);
                    }
                }
            }
        }
        i = i + 1;
    }
    assert(countries@.take(countries@.len() as int) =~= countries@);
    added
}

/// Removes every country of `countries` from the allowlist of `token`;
/// returns the countries that were removed, each once, in the order they
/// were removed.
pub fn batch_disallow_countries(s: &mut CountryAllow, token: Address, countries: &Vec<u32>) -> (removed:
    Vec<u32>)
    ensures
        forall|c: u32|
            #[trigger] final(s).allows(token, c) == (old(s).allows(token, c) && !countries@.contains(c)),
        forall|t: Address, c: u32| t != token ==> #[trigger] final(s).allows(t, c) == old(s).allows(t, c),
        forall|c: u32|
            #[trigger] removed@.contains(c) == (countries@.contains(c) && old(s).allows(token, c)),
        removed@.no_duplicates(),
{
    let mut removed: Vec<u32> = Vec::new();
    let mut i: usize = 0;
    while i < countries.len()
        invariant
            i <= countries.len(),
            forall|c: u32|
                #[trigger] s.allows(token, c) == (old(s).allows(token, c) && !countries@.take(
                    i as int,
                ).contains(c)),
            forall|t: Address, c: u32| t != token ==> #[trigger] s.allows(t, c) == old(s).allows(t, c),
            forall|c: u32|
                #[trigger] removed@.contains(c) == (countries@.take(i as int).contains(c) && old(
                    s,
                ).allows(token, c)),
            removed@.no_duplicates(),
        decreases countries.len() - i,
    {
        let c = countries[i];
        let ghost before = removed@;
        let was = remove_allowed_country(s, token, c);
        if was {
            removed.push(c);
        }
        proof {
            assert(countries@.take(i + 1) =~= countries@.take(i as int).push(c));
            assert forall|x: u32| #[trigger] removed@.contains(x) == (countries@.take(i + 1).contains(x)
                && old(s).allows(token, x)) by {
                if removed@.contains(x) && x != c {
                    let k = choose|k: int| 0 <= k < removed@.len() && removed@[k] == x;
                    assert(before[k] == x);
                }
                if x != c && before.contains(x) {
                    let k = choose|k: int| 0 <= k < before.len() && before[k] == x;
                    assert(removed@[k] == x);
                }
                if x == c && was {
                    assert(removed@[removed@.len() - 1] == c);
                }
            }
            if was {
                assert(!before.contains(c));
                assert forall|a: int, b: int| 0 <= a < b < removed@.len() implies removed@[a] != removed@[b] by {
                    if b == removed@.len() - 1 {
                        assert(before[a] == removed@[a]);
                    }
                }
            }
        }
        i = i + 1;
    }
    assert(countries@.take(countries@.len() as int) =~= countries@);
    removed
}

/// One entry with an allowed country code is enough: whatever the other
/// entries hold, the account passes.
pub proof fn lemma_one_allowed_entry_suffices(entries: Seq<CountryDataView>, allowed: spec_fn(u32) -> bool, i: int)
    requires
        0 <= i < entries.len(),
        allowed(entries[i].relation.code),
    ensures
        any_code_in(entries, allowed),
{
}

} // verus!
