//! How a module instance is wired to its compliance contract: the
//! compliance address is bound once and for all, and before relying on
//! its hooks a module can check that it is registered on every hook it
//! needs; a successful check is remembered.

use super::super::storage::{is_module_registered, ComplianceRegistry};
use super::super::ComplianceHook;
use crate::common::Address;
use std::vec::Vec;
use vstd::prelude::*;

verus! {

/// Errors of the wiring of a module instance.
#[derive(Clone, Copy, Debug, PartialEq, Eq, Structural)]
pub enum WiringError {
    /// The compliance address is already bound.
    ComplianceAlreadySet,
    /// No compliance address is bound.
    ComplianceNotSet,
    /// The module is not registered on a hook it needs.
    MissingRequiredHook,
}

/// The wiring state of a module instance.
pub struct ModuleWiring {
    compliance: Option<Address>,
    verified: bool,
}

impl ModuleWiring {
    /// The bound compliance address, if any.
    pub closed spec fn compliance(&self) -> Option<Address> {
        self.compliance
    }

    /// Whether the hook check already succeeded.
    pub closed spec fn verified(&self) -> bool {
        self.verified
    }

    /// Not bound, not checked.
    pub fn new() -> (w: Self)
        ensures
            w.compliance() is None,
            !w.verified(),
    {
        ModuleWiring { compliance: None, verified: false }
    }
}

/// Binds `compliance` as the module's compliance contract, once.
///
/// # Errors
///
/// * [`WiringError::ComplianceAlreadySet`] - When an address is already
///   bound.
pub fn set_compliance_address(w: &mut ModuleWiring, compliance: Address) -> (r: Result<(), WiringError>)
    ensures
        old(w).compliance() is Some ==> r == Err::<(), WiringError>(WiringError::ComplianceAlreadySet)
            && *final(w) == *old(w),
        old(w).compliance() is None ==> r is Ok && final(w).compliance() == Some(compliance)
            && final(w).verified() == old(w).verified(),
{
    if w.compliance.is_some() {
        return Err(WiringError::ComplianceAlreadySet);
    }
    w.compliance = Some(compliance);
    Ok(())
}

/// Returns the bound compliance address.
///
/// # Errors
///
/// * [`WiringError::ComplianceNotSet`] - When none is bound.
pub fn get_compliance_address(w: &ModuleWiring) -> (r: Result<Address, WiringError>)
    ensures
        r == (match w.compliance() {
            Some(c) => Ok::<Address, WiringError>(c),
            None => Err::<Address, WiringError>(WiringError::ComplianceNotSet),
        }),
{
    match w.compliance {
        Some(c) => Ok(c),
        None => Err(WiringError::ComplianceNotSet),
    }
}

/// Returns whether the hook check already succeeded.
pub fn hooks_verified(w: &ModuleWiring) -> (r: bool)
    ensures
        r == w.verified(),
{
    w.verified
}

/// Checks that the module `self_address` is registered, in the registry
/// `compliance` of its compliance contract, on every hook of `required`,
/// and remembers a success. A module already checked, or not bound yet,
/// is not checked.
///
/// # Errors
///
/// * [`WiringError::MissingRequiredHook`] - When a required hook does not
///   have the module registered.
#[verifier::loop_isolation(false)]
pub fn verify_required_hooks(
    w: &mut ModuleWiring,
    required: &Vec<ComplianceHook>,
    compliance: &ComplianceRegistry,
    self_address: Address,
) -> (r: Result<(), WiringError>)
    ensures
        final(w).compliance() == old(w).compliance(),
        old(w).verified() || old(w).compliance() is None ==> r is Ok && *final(w) == *old(w),
        !old(w).verified() && old(w).compliance() is Some ==> {
            &&& r is Ok <==> forall|i: int|
                0 <= i < required@.len() ==> #[trigger] compliance.modules_of(required@[i]).contains(self_address)
            &&& r is Ok ==> final(w).verified()
            &&& r is Err ==> r == Err::<(), WiringError>(WiringError::MissingRequiredHook) && *final(w) == *old(w)
        },
{
    if w.verified {
        return Ok(());
    }
    if w.compliance.is_none() {
        return Ok(());
    }
    let mut i: usize = 0;
    while i < required.len()
        invariant
            i <= required.len(),
            forall|k: int| 0 <= k < i ==> #[trigger] compliance.modules_of(required@[k]).contains(self_address),
        decreases required.len() - i,
    {
        if !is_module_registered(compliance, required[i], self_address) {
            return Err(WiringError::MissingRequiredHook);
        }
        i = i + 1;
    }
    w.verified = true;
    Ok(())
}

} // verus!
