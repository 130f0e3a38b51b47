//! Country restriction list: recipients whose identity has a country code
//! on the token's restriction list may not receive tokens. Only the
//! recipient's country data is consulted; the sender and the amount play no
//! part, so a sender from a restricted country can still send tokens out.

use super::storage::IRSRead;
use super::ComplianceModuleError;
use crate::common::{lemma_pair_injective, pair, pair_key, Address};
use crate::identity_registry_storage::{country_code, entries_view, CountryDataView};
use std::collections::HashSet;
use std::vec::Vec;
use vstd::prelude::*;

verus! {

broadcast use {vstd::std_specs::hash::group_hash_axioms, vstd::seq_lib::lemma_seq_contains_after_push};

/// The module's state: the restricted `(token, country)` pairs.
pub struct CountryRestrict {
    restricted: HashSet<u128>,
}

/// Whether no entry of `entries` carries a country code that `restricted`
/// lists.
pub open spec fn no_code_in(entries: Seq<CountryDataView>, restricted: spec_fn(u32) -> bool) -> bool {
    forall|i: int| 0 <= i < entries.len() ==> !restricted(#[trigger] entries[i].relation.code)
}

impl CountryRestrict {
    /// Whether `country` is on the restriction list of `token`.
    pub closed spec fn restricts(&self, token: Address, country: u32) -> bool {
        self.restricted@.contains(pair(token, country as u64))
    }

    /// An empty restriction list for every token.
    pub fn new() -> (s: Self)
        ensures
            forall|t: Address, c: u32| !#[trigger] s.restricts(t, c),
    {
        CountryRestrict { restricted: HashSet::new() }
    }
}

/// Returns whether `country` is on the restriction list of `token`.
pub fn is_country_restricted(s: &CountryRestrict, token: Address, country: u32) -> (r: bool)
    ensures
        r == s.restricts(token, country),
{
    s.restricted.contains(&pair_key(token, country as u64))
}

/// Returns `false` if `account` has any restricted country for `token`, and
/// `true` otherwise, reading its country data from the registry `irs`.
///
/// # Errors
///
/// * [`ComplianceModuleError::IdentityRegistryNotSet`] - When no registry is
///   configured for `token` (`irs` is `None`).
#[verifier::loop_isolation(false)]
pub fn can_receive<R: IRSRead>(s: &CountryRestrict, account: Address, token: Address, irs: Option<&R>) -> (r:
    Result<bool, ComplianceModuleError>)
    ensures
        irs is None ==> r == Err::<bool, ComplianceModuleError>(
            ComplianceModuleError::IdentityRegistryNotSet,
        ),
        irs matches Some(reg) ==> r == Ok::<bool, ComplianceModuleError>(
            no_code_in(reg.spec_country_entries(account), |c: u32| s.restricts(token, c)),
        ),
{
    let reg = match irs {
        Some(reg) => reg,
        None => {
            return Err(ComplianceModuleError::IdentityRegistryNotSet);
        },
    };
    let entries = reg.get_country_data_entries(account);
    let ghost view = reg.spec_country_entries(account);
    let mut i: usize = 0;
    while i < entries.len()
        invariant
            i <= entries.len(),
            entries_view(entries@) == view,
            forall|j: int| 0 <= j < i ==> !s.restricts(token, #[trigger] view[j].relation.code),
        decreases entries.len() - i,
    {
        let code = country_code(&entries[i].country);
        proof {
            assert(view[i as int] == entries@[i as int]@);
        }
        if is_country_restricted(s, token, code) {
            proof {
                let f = |c: u32| s.restricts(token, c);
                assert(f(view[i as int].relation.code));
            }
            return Ok(false);
        }
        i = i + 1;
    }
    Ok(true)
}

/// Returns whether a transfer to `to` passes: the sender and the amount are
/// ignored.
///
/// # Errors
///
/// * see [`can_receive`].
pub fn can_transfer<R: IRSRead>(
    s: &CountryRestrict,
    from: Address,
    to: Address,
    amount: i128,
    token: Address,
    irs: Option<&R>,
) -> (r: Result<bool, ComplianceModuleError>)
    ensures
        irs is None ==> r == Err::<bool, ComplianceModuleError>(
            ComplianceModuleError::IdentityRegistryNotSet,
        ),
        irs matches Some(reg) ==> r == Ok::<bool, ComplianceModuleError>(
            no_code_in(reg.spec_country_entries(to), |c: u32| s.restricts(token, c)),
        ),
{
    can_receive(s, to, token, irs)
}

/// Returns whether a mint to `to` passes: the amount is ignored.
///
/// # Errors
///
/// * see [`can_receive`].
pub fn can_create<R: IRSRead>(s: &CountryRestrict, to: Address, amount: i128, token: Address, irs: Option<&R>) -> (r:
    Result<bool, ComplianceModuleError>)
    ensures
        irs is None ==> r == Err::<bool, ComplianceModuleError>(
            ComplianceModuleError::IdentityRegistryNotSet,
        ),
        irs matches Some(reg) ==> r == Ok::<bool, ComplianceModuleError>(
            no_code_in(reg.spec_country_entries(to), |c: u32| s.restricts(token, c)),
        ),
{
    can_receive(s, to, token, irs)
}

/// Records `country` as restricted for `token`.
pub fn set_country_restricted(s: &mut CountryRestrict, token: Address, country: u32)
    ensures
        final(s).restricts(token, country),
        forall|t: Address, c: u32|
            !(t == token && c == country) ==> #[trigger] final(s).restricts(t, c) == old(s).restricts(t, c),
{
    s.restricted.insert(pair_key(token, country as u64));
    proof {
        assert forall|t: Address, c: u32| !(t == token && c == country) implies #[trigger] final(s).restricts(t, c)
            == old(s).restricts(t, c) by {
            lemma_pair_injective(t, c as u64, token, country as u64);
        }
    }
}

/// Removes `country` from the restriction list of `token`.
pub fn remove_country_restricted(s: &mut CountryRestrict, token: Address, country: u32)
    ensures
        !final(s).restricts(token, country),
        forall|t: Address, c: u32|
            !(t == token && c == country) ==> #[trigger] final(s).restricts(t, c) == old(s).restricts(t, c),
{
    s.restricted.remove(&pair_key(token, country as u64));
    proof {
        assert forall|t: Address, c: u32| !(t == token && c == country) implies #[trigger] final(s).restricts(t, c)
            == old(s).restricts(t, c) by {
            lemma_pair_injective(t, c as u64, token, country as u64);
        }
    }
}

/// Adds `country` to the restriction list of `token`; returns whether it was
/// newly added (an already restricted country is left as is and reported
/// `false`, and no restriction event is due for it).
pub fn add_country_restriction(s: &mut CountryRestrict, token: Address, country: u32) -> (added: bool)
    ensures
        added == !old(s).restricts(token, country),
        final(s).restricts(token, country),
        forall|t: Address, c: u32|
            !(t == token && c == country) ==> #[trigger] final(s).restricts(t, c) == old(s).restricts(t, c),
{
    if !is_country_restricted(s, token, country) {
        set_country_restricted(s, token, country);
        true
    } else {
        false
    }
}

/// Removes `country` from the restriction list of `token`; returns whether it
/// was restricted (a country that is not restricted is reported `false`, and
/// no unrestriction event is due for it).
pub fn remove_country_restriction(s: &mut CountryRestrict, token: Address, country: u32) -> (removed: bool)
    ensures
        removed == old(s).restricts(token, country),
        !final(s).restricts(token, country),
        forall|t: Address, c: u32|
            !(t == token && c == country) ==> #[trigger] final(s).restricts(t, c) == old(s).restricts(t, c),
{
    if is_country_restricted(s, token, country) {
        remove_country_restricted(s, token, country);
        true
    } else {
        false
    }
}

/// Adds every country of `countries` to the restriction list of `token`;
/// returns the countries that were newly added, each once, in the order they were
/// added.
pub fn batch_restrict_countries(s: &mut CountryRestrict, token: Address, countries: &Vec<u32>) -> (added:
    Vec<u32>)
    ensures
        forall|c: u32|
            #[trigger] final(s).restricts(token, c) == (old(s).restricts(token, c) || countries@.contains(c)),
        forall|t: Address, c: u32| t != token ==> #[trigger] final(s).restricts(t, c) == old(s).restricts(t, c),
        forall|c: u32|
            #[trigger] added@.contains(c) == (countries@.contains(c) && !old(s).restricts(token, c)),
        added@.no_duplicates(),
{
    let mut added: Vec<u32> = Vec::new();
    let mut i: usize = 0;
    while i < countries.len()
        invariant
            i <= countries.len(),
            forall|c: u32|
                #[trigger] s.restricts(token, c) == (old(s).restricts(token, c) || countries@.take(
                    i as int,
                ).contains(c)),
            forall|t: Address, c: u32| t != token ==> #[trigger] s.restricts(t, c) == old(s).restricts(t, c),
            forall|c: u32|
                #[trigger] added@.contains(c) == (countries@.take(i as int).contains(c) && !old(
                    s,
                ).restricts(token, c)),
            added@.no_duplicates(),
        decreases countries.len() - i,
    {
        let c = countries[i];
        let ghost before = added@;
        let newly = add_country_restriction(s, token, c);
        if newly {
            added.push(c);
        }
        proof {
            assert(countries@.take(i + 1) =~= countries@.take(i as int).push(c));
            assert forall|x: u32| #[trigger] added@.contains(x) == (countries@.take(i + 1).contains(x)
                && !old(s).restricts(token, x)) by {
                if added@.contains(x) && x != c {
                    let k = choose|k: int| 0 <= k < added@.len() && added@[k] == x;
                    assert(before[k] == x);
                }
                if x != c && before.contains(x) {
                    let k = choose|k: int| 0 <= k < before.len() && before[k] == x;
                    assert(added@[k] == x);
                }
                if x == c && newly {
                    assert(added@[added@.len() - 1] == c);
                }
            }
            if newly {
                assert(!before.contains(c));
                assert forall|a: int, b: int| 0 <= a < b < added@.len() implies added@[a] != added@[b] by {
                    if b == added@.len() - 1 {
                        assert(before[a] == added@[a]);
                    }
                }
            }
        }
        i = i + 1;
    }
    assert(countries@.take(countries@.len() as int) =~= countries@);
    added
}

/// Removes every country of `countries` from the restriction list of
/// `token`; returns the countries that were removed, each once, in the order they
/// were removed.
pub fn batch_unrestrict_countries(s: &mut CountryRestrict, token: Address, countries: &Vec<u32>) -> (removed:
    Vec<u32>)
    ensures
        forall|c: u32|
            #[trigger] final(s).restricts(token, c) == (old(s).restricts(token, c) && !countries@.contains(c)),
        forall|t: Address, c: u32| t != token ==> #[trigger] final(s).restricts(t, c) == old(s).restricts(t, c),
        forall|c: u32|
            #[trigger] removed@.contains(c) == (countries@.contains(c) && old(s).restricts(token, c)),
        removed@.no_duplicates(),
{
    let mut removed: Vec<u32> = Vec::new();
    let mut i: usize = 0;
    while i < countries.len()
        invariant
            i <= countries.len(),
            forall|c: u32|
                #[trigger] s.restricts(token, c) == (old(s).restricts(token, c) && !countries@.take(
                    i as int,
                ).contains(c)),
            forall|t: Address, c: u32| t != token ==> #[trigger] s.restricts(t, c) == old(s).restricts(t, c),
            forall|c: u32|
                #[trigger] removed@.contains(c) == (countries@.take(i as int).contains(c) && old(
                    s,
                ).restricts(token, c)),
            removed@.no_duplicates(),
        decreases countries.len() - i,
    {
        let c = countries[i];
        let ghost before = removed@;
        let was = remove_country_restriction(s, token, c);
        if was {
            removed.push(c);
        }
        proof {
            assert(countries@.take(i + 1) =~= countries@.take(i as int).push(c));
            assert forall|x: u32| #[trigger] removed@.contains(x) == (countries@.take(i + 1).contains(x)
                && old(s).restricts(token, x)) by {
                if removed@.contains(x) && x != c {
                    let k = choose|k: int| 0 <= k < removed@.len() && removed@[k] == x;
                    assert(before[k] == x);
                }
                if x != c && before.contains(x) {
                    let k = choose|k: int| 0 <= k < before.len() && before[k] == x;
                    assert(removed@[k] == x);
                }
                if x == c && was {
                    assert(removed@[removed@.len() - 1] == c);
                }
            }
            if was {
                assert(!before.contains(c));
                assert forall|a: int, b: int| 0 <= a < b < removed@.len() implies removed@[a] != removed@[b] by {
                    if b == removed@.len() - 1 {
                        assert(before[a] == removed@[a]);
                    }
                }
            }
        }
        i = i + 1;
    }
    assert(countries@.take(countries@.len() as int) =~= countries@);
    removed
}

/// One entry with a restricted country code is enough to block: whatever
/// the other entries hold, the account does not pass.
pub proof fn lemma_one_restricted_entry_blocks(entries: Seq<CountryDataView>, restricted: spec_fn(u32) -> bool, i: int)
    requires
        0 <= i < entries.len(),
        restricted(entries[i].relation.code),
    ensures
        !no_code_in(entries, restricted),
{
}

} // verus!
