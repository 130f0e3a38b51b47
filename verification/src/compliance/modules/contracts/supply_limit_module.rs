//! Supply limit as a self-contained module contract: a mint passes when the
//! token's total supply plus the minted amount stays within the token's
//! limit; a limit of zero means no limit. Transfers are not affected and
//! the bookkeeping hooks do nothing.

use super::{ContractCore, ContractError, ModuleError};
use crate::common::Address;
use std::collections::HashMap;
use std::string::String;
use vstd::prelude::*;

verus! {

broadcast use vstd::std_specs::hash::group_hash_axioms;

/// The contract's state.
pub struct SupplyLimitModule {
    base: ContractCore,
    limits: HashMap<Address, i128>,
}

/// Whether a mint of `amount` on a token whose total supply is
/// `total_supply` passes the limit `limit` (`None` when none is stored);
/// the error comes from an overflowing sum.
pub open spec fn mint_check(limit: Option<i128>, total_supply: i128, amount: i128) -> Result<bool, ContractError> {
    let l = match limit {
        Some(v) => v,
        None => 0,
    };
    if amount < 0 {
        Ok(false)
    } else if l == 0 {
        Ok(true)
    } else if total_supply + amount > i128::MAX || total_supply + amount < i128::MIN {
        Err(ContractError::Module(ModuleError::MathOverflow))
    } else {
        Ok(total_supply + amount <= l)
    }
}

impl SupplyLimitModule {
    /// The limit stored for `token`, if any.
    pub closed spec fn limit_of(&self, token: Address) -> Option<i128> {
        if self.limits@.contains_key(token) {
            Some(self.limits@[token])
        } else {
            None
        }
    }

    /// The shared contract state.
    pub closed spec fn base(&self) -> ContractCore {
        self.base
    }

    /// No limit, nothing bound.
    pub fn new() -> (s: Self)
        ensures
            forall|t: Address| #[trigger] s.limit_of(t) is None,
            s.base().compliance() is None,
    {
        SupplyLimitModule { base: ContractCore::new(), limits: HashMap::new() }
    }

    /// Sets the limit of `token`.
    ///
    /// # Errors
    ///
    /// * [`ModuleError::InvalidAmount`] - When `limit` is negative.
    pub fn set_supply_limit(&mut self, token: Address, limit: i128) -> (r: Result<(), ContractError>)
        ensures
            limit < 0 ==> r == Err::<(), ContractError>(ContractError::Module(ModuleError::InvalidAmount))
                && *final(self) == *old(self),
            limit >= 0 ==> r is Ok && final(self).limit_of(token) == Some(limit),
            forall|t: Address| t != token ==> #[trigger] final(self).limit_of(t) == old(self).limit_of(t),
            final(self).base() == old(self).base(),
    {
        if limit < 0 {
            return Err(ContractError::Module(ModuleError::InvalidAmount));
        }
        self.limits.insert(token, limit);
        Ok(())
    }

    /// Returns the limit of `token`.
    ///
    /// # Errors
    ///
    /// * [`ModuleError::MissingLimit`] - When no limit is stored.
    pub fn get_supply_limit(&self, token: Address) -> (r: Result<i128, ContractError>)
        ensures
            r == (match self.limit_of(token) {
                Some(l) => Ok::<i128, ContractError>(l),
                None => Err::<i128, ContractError>(ContractError::Module(ModuleError::MissingLimit)),
            }),
    {
        match self.limits.get(&token) {
            Some(l) => Ok(*l),
            None => Err(ContractError::Module(ModuleError::MissingLimit)),
        }
    }

    /// Records a transfer: nothing to record.
    pub fn on_transfer(&self, from: Address, to: Address, amount: i128, token: Address) {
    }

    /// Records a mint: nothing to record.
    pub fn on_created(&self, to: Address, amount: i128, token: Address) {
    }

    /// Records a burn: nothing to record.
    pub fn on_destroyed(&self, from: Address, amount: i128, token: Address) {
    }

    /// Transfers leave the supply unchanged: they always pass.
    pub fn can_transfer(&self, from: Address, to: Address, amount: i128, token: Address) -> (r: bool)
        ensures
            r,
    {
        true
    }

    /// Returns whether a mint of `amount` passes, given the token's current
    /// total supply `total_supply`.
    ///
    /// # Errors
    ///
    /// * [`ModuleError::MathOverflow`] - When the sum overflows.
    pub fn can_create(&self, to: Address, amount: i128, token: Address, total_supply: i128) -> (r: Result<bool, ContractError>)
        ensures
            r == mint_check(self.limit_of(token), total_supply, amount),
    {
        if amount < 0 {
            return Ok(false);
        }
        let limit = match self.limits.get(&token) {
            Some(l) => *l,
            None => 0,
        };
        if limit == 0 {
            return Ok(true);
        }
        match total_supply.checked_add(amount) {
            Some(v) => Ok(v <= limit),
            None => Err(ContractError::Module(ModuleError::MathOverflow)),
        }
    }

    /// The contract's name.
    pub fn name(&self) -> (r: String)
        ensures
            r@ == "SupplyLimitModule"@,
    {
        String::from_str("SupplyLimitModule")
    }

    /// Returns the compliance contract, or `self_address` when none is set.
    pub fn get_compliance_address(&self, self_address: Address) -> (r: Address)
        ensures
            r == (match self.base().compliance() {
                Some(c) => c,
                None => self_address,
            }),
    {
        self.base.get_compliance_address(self_address)
    }

    /// Sets the compliance contract.
    pub fn set_compliance_address(&mut self, compliance: Address)
        ensures
            final(self).base().compliance() == Some(compliance),
            forall|t: Address| #[trigger] final(self).limit_of(t) == old(self).limit_of(t),
    {
        self.base.set_compliance_address(compliance);
    }
}

/// A mint that passes leaves the total supply within a configured limit.
pub proof fn lemma_mint_within_limit(limit: i128, total_supply: i128, amount: i128)
    requires
        limit != 0,
    ensures
        mint_check(Some(limit), total_supply, amount) == Ok::<bool, ContractError>(true) ==> total_supply
            + amount <= limit,
{
}

/// A limit of zero, like no stored limit, means no cap: every mint of a
/// non-negative amount passes, whatever the current supply.
pub proof fn lemma_no_limit_lets_every_mint_through(total_supply: i128, amount: i128)
    requires
        amount >= 0,
    ensures
        mint_check(None, total_supply, amount) == Ok::<bool, ContractError>(true),
        mint_check(Some(0), total_supply, amount) == Ok::<bool, ContractError>(true),
{
}

/// Under a configured (non-zero) limit, a mint of a non-negative amount
/// passes exactly when the new supply stays within the limit; a negative
/// amount never passes.
pub proof fn lemma_mint_check_under_limit(limit: i128, total_supply: i128, amount: i128)
    ensures
        amount < 0 ==> mint_check(Some(limit), total_supply, amount) == Ok::<bool, ContractError>(false),
        amount >= 0 && limit != 0 && i128::MIN <= total_supply + amount <= i128::MAX ==> mint_check(
            Some(limit),
            total_supply,
            amount,
        ) == Ok::<bool, ContractError>(total_supply + amount <= limit),
{
}

} // verus!
