//! Self-contained module contracts. Each keeps, besides its own rules, the
//! address of the compliance contract that drives it (the contract's own
//! address when none is set) and, per token, the identity registry it
//! reads. Their hooks take the registry contract bound to the token as an
//! argument.

pub mod country_allow_module;
pub mod country_restrict_module;
pub mod max_balance_module;
pub mod supply_limit_module;
pub mod time_transfers_limits_module;

use crate::common::Address;
use crate::identity_registry_storage::IRSError;
use std::collections::HashMap;
use vstd::prelude::*;

verus! {

broadcast use vstd::std_specs::hash::group_hash_axioms;

/// Errors raised by the module contracts.
#[derive(Clone, Copy, Debug, PartialEq, Eq, Structural)]
pub enum ModuleError {
    ComplianceNotSet,
    InvalidAmount,
    MathOverflow,
    MathUnderflow,
    MissingLimit,
    MissingCounter,
    MissingCountry,
    IdentityRegistryNotSet,
}

impl ModuleError {
    /// The numeric contract error code of this error.
    pub fn code(&self) -> (c: u32)
        ensures
            c == (match *self {
                ModuleError::ComplianceNotSet => 1u32,
                ModuleError::InvalidAmount => 2u32,
                ModuleError::MathOverflow => 3u32,
                ModuleError::MathUnderflow => 4u32,
                ModuleError::MissingLimit => 5u32,
                ModuleError::MissingCounter => 6u32,
                ModuleError::MissingCountry => 7u32,
                ModuleError::IdentityRegistryNotSet => 8u32,
            }),
    {
        match self {
            ModuleError::ComplianceNotSet => 1,
            ModuleError::InvalidAmount => 2,
            ModuleError::MathOverflow => 3,
            ModuleError::MathUnderflow => 4,
            ModuleError::MissingLimit => 5,
            ModuleError::MissingCounter => 6,
            ModuleError::MissingCountry => 7,
            ModuleError::IdentityRegistryNotSet => 8,
        }
    }
}

/// Why a module contract refuses a call.
#[derive(Clone, Copy, Debug, PartialEq, Eq, Structural)]
pub enum ContractError {
    /// A module error with its contract error code.
    Module(ModuleError),
    /// The identity registry refused a lookup.
    Registry(IRSError),
    /// The recipient identity's balance would exceed the maximum.
    MaxBalanceExceeded,
    /// Two parallel lists have different lengths.
    LengthMismatch,
}

/// What every module contract keeps: the compliance contract driving it
/// and the identity registry of each token.
pub struct ContractCore {
    compliance: Option<Address>,
    registries: HashMap<Address, Address>,
}

impl ContractCore {
    /// The compliance contract set, if any.
    pub closed spec fn compliance(&self) -> Option<Address> {
        self.compliance
    }

    /// The identity registry bound to `token`, if any.
    pub closed spec fn registry_of(&self, token: Address) -> Option<Address> {
        if self.registries@.contains_key(token) {
            Some(self.registries@[token])
        } else {
            None
        }
    }

    /// No compliance contract and no registry.
    pub fn new() -> (c: Self)
        ensures
            c.compliance() is None,
            forall|t: Address| #[trigger] c.registry_of(t) is None,
    {
        ContractCore { compliance: None, registries: HashMap::new() }
    }

    /// Returns the compliance contract, or `self_address` (the module
    /// contract's own address) when none is set.
    pub fn get_compliance_address(&self, self_address: Address) -> (r: Address)
        ensures
            r == (match self.compliance() {
                Some(c) => c,
                None => self_address,
            }),
    {
        match self.compliance {
            Some(c) => c,
            None => self_address,
        }
    }

    /// Sets the compliance contract.
    pub fn set_compliance_address(&mut self, compliance: Address)
        ensures
            final(self).compliance() == Some(compliance),
            forall|t: Address| #[trigger] final(self).registry_of(t) == old(self).registry_of(t),
    {
        self.compliance = Some(compliance);
    }

    /// Binds `irs` as the identity registry of `token`.
    pub fn set_irs_address(&mut self, token: Address, irs: Address)
        ensures
            final(self).registry_of(token) == Some(irs),
            forall|t: Address| t != token ==> #[trigger] final(self).registry_of(t) == old(self).registry_of(t),
            final(self).compliance() == old(self).compliance(),
    {
        self.registries.insert(token, irs);
    }

    /// Checks that a registry is bound to `token`.
    ///
    /// # Errors
    ///
    /// * [`ModuleError::IdentityRegistryNotSet`] - When none is.
    pub fn require_registry(&self, token: Address) -> (r: Result<(), ContractError>)
        ensures
            r is Ok <==> self.registry_of(token) is Some,
            r is Err ==> r == Err::<(), ContractError>(
                ContractError::Module(ModuleError::IdentityRegistryNotSet),
            ),
    {
        if self.registries.contains_key(&token) {
            Ok(())
        } else {
            Err(ContractError::Module(ModuleError::IdentityRegistryNotSet))
        }
    }
}

} // verus!
