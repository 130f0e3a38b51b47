//! State and helpers shared by the compliance modules: the per-token
//! bindings of the authorized compliance dispatcher and of the identity
//! registry, checked arithmetic, and the read interface through which a
//! module looks identities and countries up in an identity registry.

use super::ComplianceModuleError;
use crate::common::Address;
use crate::identity_registry_storage::{
    entries_view, get_country_data_entries as irs_country_data_entries,
    get_recovered_to as irs_recovered_to, stored_identity as irs_stored_identity, CountryData,
    CountryDataView, IRSError, IdentityRegistryStorage,
};
use std::collections::HashMap;
use std::vec::Vec;
use vstd::prelude::*;

verus! {

broadcast use vstd::std_specs::hash::group_hash_axioms;

/// The read interface of an identity registry as compliance modules use it.
pub trait IRSRead {
    /// The address of the registry contract read from.
    spec fn spec_address(&self) -> Address;

    /// The identity linked to `account`, if any.
    spec fn spec_identity(&self, account: Address) -> Option<Address>;

    /// Where `account`'s identity was recovered to, if it was.
    spec fn spec_recovered_to(&self, account: Address) -> Option<Address>;

    /// The country data entries of `account`.
    spec fn spec_country_entries(&self, account: Address) -> Seq<CountryDataView>;

    /// Returns the identity linked to `account`.
    fn stored_identity(&self, account: Address) -> (r: Result<Address, IRSError>)
        ensures
            r == (match self.spec_identity(account) {
                Some(i) => Ok::<Address, IRSError>(i),
                None => Err::<Address, IRSError>(IRSError::IdentityNotFound),
            }),
    ;

    /// Returns where `account`'s identity was recovered to, if it was.
    fn get_recovered_to(&self, account: Address) -> (r: Option<Address>)
        ensures
            r == self.spec_recovered_to(account),
    ;

    /// Returns `account`'s country data entries.
    fn get_country_data_entries(&self, account: Address) -> (r: Vec<CountryData>)
        ensures
            entries_view(r@) == self.spec_country_entries(account),
    ;
}

impl IRSRead for IdentityRegistryStorage {
    open spec fn spec_address(&self) -> Address {
        self.address_of()
    }

    open spec fn spec_identity(&self, account: Address) -> Option<Address> {
        if self.has_identity(account) {
            Some(self.identity_of(account))
        } else {
            None
        }
    }

    open spec fn spec_recovered_to(&self, account: Address) -> Option<Address> {
        self.recovered_to(account)
    }

    open spec fn spec_country_entries(&self, account: Address) -> Seq<CountryDataView> {
        self.entries_of(account)
    }

    fn stored_identity(&self, account: Address) -> (r: Result<Address, IRSError>) {
        irs_stored_identity(self, account)
    }

    fn get_recovered_to(&self, account: Address) -> (r: Option<Address>) {
        irs_recovered_to(self, account)
    }

    fn get_country_data_entries(&self, account: Address) -> (r: Vec<CountryData>) {
        irs_country_data_entries(self, account)
    }
}

/// Per-token bindings of a module: the dispatcher authorized to drive its
/// hooks and the identity registry it reads.
pub struct ModuleBindings {
    compliance: HashMap<Address, Address>,
    registry: HashMap<Address, Address>,
}

impl ModuleBindings {
    /// The dispatcher bound to `token`, if any.
    pub closed spec fn compliance_of(&self, token: Address) -> Option<Address> {
        if self.compliance@.contains_key(token) {
            Some(self.compliance@[token])
        } else {
            None
        }
    }

    /// The identity registry bound to `token`, if any.
    pub closed spec fn registry_of(&self, token: Address) -> Option<Address> {
        if self.registry@.contains_key(token) {
            Some(self.registry@[token])
        } else {
            None
        }
    }

    /// No binding at all.
    pub fn new() -> (b: Self)
        ensures
            forall|t: Address| #[trigger] b.compliance_of(t) is None && b.registry_of(t) is None,
    {
        ModuleBindings { compliance: HashMap::new(), registry: HashMap::new() }
    }
}

/// Returns the dispatcher bound to `token`.
///
/// # Errors
///
/// * [`ComplianceModuleError::ComplianceNotSet`] - When no dispatcher has been
///   bound for `token`.
pub fn get_compliance_address(b: &ModuleBindings, token: Address) -> (r: Result<
    Address,
    ComplianceModuleError,
>)
    ensures
        r == (match b.compliance_of(token) {
            Some(c) => Ok::<Address, ComplianceModuleError>(c),
            None => Err::<Address, ComplianceModuleError>(ComplianceModuleError::ComplianceNotSet),
        }),
{
    match b.compliance.get(&token) {
        Some(c) => Ok(*c),
        None => Err(ComplianceModuleError::ComplianceNotSet),
    }
}

/// Binds `compliance` as the dispatcher authorized to drive hooks for
/// `token`, overwriting any prior binding.
pub fn set_compliance_address(b: &mut ModuleBindings, token: Address, compliance: Address)
    ensures
        final(b).compliance_of(token) == Some(compliance),
        forall|t: Address|
            t != token ==> #[trigger] final(b).compliance_of(t) == old(b).compliance_of(t),
        forall|t: Address| #[trigger] final(b).registry_of(t) == old(b).registry_of(t),
{
    b.compliance.insert(token, compliance);
}

/// Returns the identity registry bound to `token`.
///
/// # Errors
///
/// * [`ComplianceModuleError::IdentityRegistryNotSet`] - When no registry has
///   been configured for `token`.
pub fn get_irs_address(b: &ModuleBindings, token: Address) -> (r: Result<
    Address,
    ComplianceModuleError,
>)
    ensures
        r == (match b.registry_of(token) {
            Some(c) => Ok::<Address, ComplianceModuleError>(c),
            None => Err::<Address, ComplianceModuleError>(
                ComplianceModuleError::IdentityRegistryNotSet,
            ),
        }),
{
    match b.registry.get(&token) {
        Some(c) => Ok(*c),
        None => Err(ComplianceModuleError::IdentityRegistryNotSet),
    }
}

/// Binds `irs` as the identity registry of `token`, overwriting any prior
/// binding.
pub fn set_irs_address(b: &mut ModuleBindings, token: Address, irs: Address)
    ensures
        final(b).registry_of(token) == Some(irs),
        forall|t: Address| t != token ==> #[trigger] final(b).registry_of(t) == old(b).registry_of(t),
        forall|t: Address| #[trigger] final(b).compliance_of(t) == old(b).compliance_of(t),
{
    b.registry.insert(token, irs);
}

/// Validates that `amount` is non-negative.
///
/// # Errors
///
/// * [`ComplianceModuleError::InvalidAmount`] - When `amount` is negative.
pub fn require_non_negative_amount(amount: i128) -> (r: Result<(), ComplianceModuleError>)
    ensures
        amount >= 0 <==> r is Ok,
        r is Err ==> r == Err::<(), ComplianceModuleError>(ComplianceModuleError::InvalidAmount),
{
    if amount < 0 {
        Err(ComplianceModuleError::InvalidAmount)
    } else {
        Ok(())
    }
}

/// Adds two amounts.
///
/// # Errors
///
/// * [`ComplianceModuleError::MathOverflow`] - When the sum does not fit.
pub fn add_i128_or_panic(left: i128, right: i128) -> (r: Result<i128, ComplianceModuleError>)
    ensures
        i128::MIN <= left + right <= i128::MAX ==> r == Ok::<i128, ComplianceModuleError>(
            (left + right) as i128,
        ),
        !(i128::MIN <= left + right <= i128::MAX) ==> r == Err::<i128, ComplianceModuleError>(
            ComplianceModuleError::MathOverflow,
        ),
{
    match left.checked_add(right) {
        Some(v) => Ok(v),
        None => Err(ComplianceModuleError::MathOverflow),
    }
}

/// Subtracts `right` from `left`.
///
/// # Errors
///
/// * [`ComplianceModuleError::MathUnderflow`] - When the difference does not
///   fit.
pub fn sub_i128_or_panic(left: i128, right: i128) -> (r: Result<i128, ComplianceModuleError>)
    ensures
        i128::MIN <= left - right <= i128::MAX ==> r == Ok::<i128, ComplianceModuleError>(
            (left - right) as i128,
        ),
        !(i128::MIN <= left - right <= i128::MAX) ==> r == Err::<i128, ComplianceModuleError>(
            ComplianceModuleError::MathUnderflow,
        ),
{
    match left.checked_sub(right) {
        Some(v) => Ok(v),
        None => Err(ComplianceModuleError::MathUnderflow),
    }
}

} // verus!
