//! Maximum balance as a self-contained module contract: balances are kept
//! per identity, and a transfer or mint that would leave the recipient
//! identity above the token's maximum is refused; a maximum of zero means
//! no maximum. Balances can be seeded before the module is bound.

use super::super::max_balance::resolve;
use super::super::storage::IRSRead;
use super::{ContractCore, ContractError, ModuleError};
use crate::common::{lemma_pair_injective, pair, pair_key, Address};
use std::collections::HashMap;
use std::string::String;
use std::vec::Vec;
use vstd::prelude::*;

verus! {

broadcast use vstd::std_specs::hash::group_hash_axioms;

/// The contract's state.
pub struct MaxBalanceModule {
    base: ContractCore,
    max: HashMap<Address, i128>,
    balances: HashMap<u128, i128>,
}

/// The new balances of a transfer, mint or burn: an error, nothing, or
/// `(a, balance of a, b, balance of b)`.
pub type Update = Result<Option<(Address, i128, Address, i128)>, ContractError>;

impl MaxBalanceModule {
    /// The maximum of `token` (zero, meaning none, by default).
    pub closed spec fn max_of(&self, token: Address) -> i128 {
        if self.max@.contains_key(token) {
            self.max@[token]
        } else {
            0
        }
    }

    /// The balance of `identity` under `token` (zero by default).
    pub closed spec fn balance_of(&self, token: Address, identity: Address) -> i128 {
        if self.balances@.contains_key(pair(token, identity)) {
            self.balances@[pair(token, identity)]
        } else {
            0
        }
    }

    /// The shared contract state.
    pub closed spec fn base(&self) -> ContractCore {
        self.base
    }

    /// `other` differs from `self` at most in the balances of `a` and `b`
    /// under `token`.
    pub open spec fn same_except(&self, other: &Self, token: Address, a: Address, b: Address) -> bool {
        &&& other.base() == self.base()
        &&& forall|t: Address| #[trigger] other.max_of(t) == self.max_of(t)
        &&& forall|t: Address, i: Address|
            !(t == token && (i == a || i == b)) ==> #[trigger] other.balance_of(t, i) == self.balance_of(t, i)
    }

    /// No maximum, no balance, nothing bound.
    pub fn new() -> (s: Self)
        ensures
            forall|t: Address| #[trigger] s.max_of(t) == 0,
            forall|t: Address, i: Address| #[trigger] s.balance_of(t, i) == 0,
            s.base().compliance() is None,
            forall|t: Address| #[trigger] s.base().registry_of(t) is None,
    {
        MaxBalanceModule { base: ContractCore::new(), max: HashMap::new(), balances: HashMap::new() }
    }

    /// Binds `irs` as the identity registry of `token`.
    pub fn set_identity_registry_storage(&mut self, token: Address, irs: Address)
        ensures
            final(self).base().registry_of(token) == Some(irs),
            forall|t: Address| t != token ==> #[trigger] final(self).base().registry_of(t) == old(self).base().registry_of(t),
            final(self).base().compliance() == old(self).base().compliance(),
            forall|t: Address| #[trigger] final(self).max_of(t) == old(self).max_of(t),
            forall|t: Address, i: Address| #[trigger] final(self).balance_of(t, i) == old(self).balance_of(t, i),
    {
        self.base.set_irs_address(token, irs);
    }

    /// Sets the maximum of `token`.
    ///
    /// # Errors
    ///
    /// * [`ModuleError::InvalidAmount`] - When `max_balance` is negative.
    pub fn set_max_balance(&mut self, token: Address, max_balance: i128) -> (r: Result<(), ContractError>)
        ensures
            max_balance < 0 ==> r == Err::<(), ContractError>(ContractError::Module(ModuleError::InvalidAmount))
                && *final(self) == *old(self),
            max_balance >= 0 ==> r is Ok && final(self).max_of(token) == max_balance,
            forall|t: Address| t != token ==> #[trigger] final(self).max_of(t) == old(self).max_of(t),
            forall|t: Address, i: Address| #[trigger] final(self).balance_of(t, i) == old(self).balance_of(t, i),
            final(self).base() == old(self).base(),
    {
        if max_balance < 0 {
            return Err(ContractError::Module(ModuleError::InvalidAmount));
        }
        self.max.insert(token, max_balance);
        Ok(())
    }

    /// Writes the balance of `identity` under `token`.
    fn write_balance(&mut self, token: Address, identity: Address, balance: i128)
        ensures
            final(self).balance_of(token, identity) == balance,
            old(self).same_except(final(self), token, identity, identity),
    {
        self.balances.insert(pair_key(token, identity), balance);
        proof {
            assert forall|t: Address, i: Address| !(t == token && (i == identity || i == identity)) implies #[trigger] final(self).balance_of(t, i)
                == old(self).balance_of(t, i) by {
                lemma_pair_injective(t, i, token, identity);
            }
        }
    }

    /// Seeds the balance of `identity` under `token`.
    ///
    /// # Errors
    ///
    /// * [`ModuleError::InvalidAmount`] - When `balance` is negative.
    pub fn pre_set_module_state(&mut self, token: Address, identity: Address, balance: i128) -> (r: Result<(), ContractError>)
        ensures
            balance < 0 ==> r == Err::<(), ContractError>(ContractError::Module(ModuleError::InvalidAmount))
                && *final(self) == *old(self),
            balance >= 0 ==> r is Ok && final(self).balance_of(token, identity) == balance,
            old(self).same_except(final(self), token, identity, identity),
    {
        if balance < 0 {
            return Err(ContractError::Module(ModuleError::InvalidAmount));
        }
        self.write_balance(token, identity, balance);
        Ok(())
    }

    /// Seeds the balances of several identities, `identities[i]` getting
    /// `balances[i]` in order; either all are written or none is.
    ///
    /// # Errors
    ///
    /// * [`ContractError::LengthMismatch`] - When the lists differ in length.
    /// * [`ModuleError::InvalidAmount`] - When a balance is negative.
    #[verifier::loop_isolation(false)]
    pub fn batch_pre_set_module_state(&mut self, token: Address, identities: &Vec<Address>, balances: &Vec<i128>) -> (r: Result<(), ContractError>)
        ensures
            identities@.len() != balances@.len() ==> r == Err::<(), ContractError>(ContractError::LengthMismatch),
            identities@.len() == balances@.len() && (exists|i: int| 0 <= i < balances@.len() && #[trigger] balances@[i] < 0)
                ==> r == Err::<(), ContractError>(ContractError::Module(ModuleError::InvalidAmount)),
            r is Err ==> *final(self) == *old(self),
            r is Ok ==> forall|i: Address| #[trigger] final(self).balance_of(token, i) == super::super::max_balance::seeded(
                identities@,
                balances@,
                i,
                old(self).balance_of(token, i),
            ),
            forall|t: Address, i: Address| t != token ==> #[trigger] final(self).balance_of(t, i) == old(self).balance_of(t, i),
            forall|t: Address| #[trigger] final(self).max_of(t) == old(self).max_of(t),
            final(self).base() == old(self).base(),
    {
        if identities.len() != balances.len() {
            return Err(ContractError::LengthMismatch);
        }
        let mut k: usize = 0;
        while k < balances.len()
            invariant
                k <= balances.len(),
                forall|j: int| 0 <= j < k ==> #[trigger] balances@[j] >= 0,
            decreases balances.len() - k,
        {
            if balances[k] < 0 {
                proof {
                    assert(balances@[k as int] < 0);
                }
                return Err(ContractError::Module(ModuleError::InvalidAmount));
            }
            k = k + 1;
        }
        let ghost s0 = *old(self);
        let mut i: usize = 0;
        while i < identities.len()
            invariant
                i <= identities.len(),
                identities.len() == balances.len(),
                forall|x: Address| #[trigger] self.balance_of(token, x) == super::super::max_balance::seeded(
                    identities@.take(i as int),
                    balances@,
                    x,
                    s0.balance_of(token, x),
                ),
                forall|t: Address, x: Address| t != token ==> #[trigger] self.balance_of(t, x) == s0.balance_of(t, x),
                forall|t: Address| #[trigger] self.max_of(t) == s0.max_of(t),
                self.base() == s0.base(),
            decreases identities.len() - i,
        {
            self.write_balance(token, identities[i], balances[i]);
            proof {
                assert(identities@.take(i + 1).drop_last() =~= identities@.take(i as int));
            }
            i = i + 1;
        }
        proof {
            assert(identities@.take(identities@.len() as int) =~= identities@);
        }
        Ok(())
    }

    /// Returns the balance of `identity` under `token`.
    pub fn get_investor_balance(&self, token: Address, identity: Address) -> (r: i128)
        ensures
            r == self.balance_of(token, identity),
    {
        match self.balances.get(&pair_key(token, identity)) {
            Some(v) => *v,
            None => 0,
        }
    }

    /// Returns the maximum of `token`.
    fn get_max(&self, token: Address) -> (r: i128)
        ensures
            r == self.max_of(token),
    {
        match self.max.get(&token) {
            Some(v) => *v,
            None => 0,
        }
    }
}

/// Whether `balance` fits under `max`, zero meaning no maximum.
pub open spec fn within_max(balance: int, max: i128) -> bool {
    max == 0 || balance <= max
}

/// The new balances of a transfer of `amount` from `from` to `to`: the
/// recipient identity's new balance is checked against the maximum before
/// the sender identity is debited; a transfer within one identity changes
/// nothing.
pub open spec fn transfer_update<R: IRSRead>(s: &MaxBalanceModule, reg: &R, from: Address, to: Address, amount: i128, token: Address) -> Update {
    if amount < 0 {
        Err(ContractError::Module(ModuleError::InvalidAmount))
    } else if s.base().registry_of(token) is None {
        Err(ContractError::Module(ModuleError::IdentityRegistryNotSet))
    } else {
        match resolve(reg, from) {
            Err(e) => Err(ContractError::Registry(e)),
            Ok(id_from) => match resolve(reg, to) {
                Err(e) => Err(ContractError::Registry(e)),
                Ok(id_to) => if id_from == id_to {
                    Ok(None)
                } else {
                    let nt = s.balance_of(token, id_to) + amount;
                    let nf = s.balance_of(token, id_from) - amount;
                    if nt > i128::MAX {
                        Err(ContractError::Module(ModuleError::MathOverflow))
                    } else if !within_max(nt, s.max_of(token)) {
                        Err(ContractError::MaxBalanceExceeded)
                    } else if nf < i128::MIN {
                        Err(ContractError::Module(ModuleError::MathUnderflow))
                    } else {
                        Ok(Some((id_from, nf as i128, id_to, nt as i128)))
                    }
                },
            },
        }
    }
}

/// The new balance of a mint of `amount` to `to`.
pub open spec fn mint_update<R: IRSRead>(s: &MaxBalanceModule, reg: &R, to: Address, amount: i128, token: Address) -> Update {
    if amount < 0 {
        Err(ContractError::Module(ModuleError::InvalidAmount))
    } else if s.base().registry_of(token) is None {
        Err(ContractError::Module(ModuleError::IdentityRegistryNotSet))
    } else {
        match resolve(reg, to) {
            Err(e) => Err(ContractError::Registry(e)),
            Ok(id) => {
                let n = s.balance_of(token, id) + amount;
                if n > i128::MAX {
                    Err(ContractError::Module(ModuleError::MathOverflow))
                } else if !within_max(n, s.max_of(token)) {
                    Err(ContractError::MaxBalanceExceeded)
                } else {
                    Ok(Some((id, n as i128, id, n as i128)))
                }
            },
        }
    }
}

/// The new balance of a burn of `amount` from `from`.
pub open spec fn burn_update<R: IRSRead>(s: &MaxBalanceModule, reg: &R, from: Address, amount: i128, token: Address) -> Update {
    if amount < 0 {
        Err(ContractError::Module(ModuleError::InvalidAmount))
    } else if s.base().registry_of(token) is None {
        Err(ContractError::Module(ModuleError::IdentityRegistryNotSet))
    } else {
        match resolve(reg, from) {
            Err(e) => Err(ContractError::Registry(e)),
            Ok(id) => {
                let n = s.balance_of(token, id) - amount;
                if n < i128::MIN {
                    Err(ContractError::Module(ModuleError::MathUnderflow))
                } else {
                    Ok(Some((id, n as i128, id, n as i128)))
                }
            },
        }
    }
}

/// `s2` and `r` are what carrying out `u` on `s1` gives.
pub open spec fn update_applied(s1: &MaxBalanceModule, s2: &MaxBalanceModule, token: Address, u: Update, r: Result<(), ContractError>) -> bool {
    match u {
        Err(e) => r == Err::<(), ContractError>(e) && *s2 == *s1,
        Ok(None) => r is Ok && *s2 == *s1,
        Ok(Some((a, na, b, nb))) => {
            &&& r is Ok
            &&& s2.balance_of(token, a) == na
            &&& s2.balance_of(token, b) == nb
            &&& s1.same_except(s2, token, a, b)
        },
    }
}

/// Whether a transfer of `amount` to `to` passes.
pub open spec fn transfer_check<R: IRSRead>(s: &MaxBalanceModule, reg: &R, to: Address, amount: i128, token: Address) -> Result<bool, ContractError> {
    if amount < 0 {
        Ok(false)
    } else if s.max_of(token) == 0 || amount > s.max_of(token) {
        Ok(s.max_of(token) == 0)
    } else if s.base().registry_of(token) is None {
        Err(ContractError::Module(ModuleError::IdentityRegistryNotSet))
    } else {
        match resolve(reg, to) {
            Err(e) => Err(ContractError::Registry(e)),
            Ok(id) => if s.balance_of(token, id) + amount > i128::MAX {
                Err(ContractError::Module(ModuleError::MathOverflow))
            } else {
                Ok(s.balance_of(token, id) + amount <= s.max_of(token))
            },
        }
    }
}

impl MaxBalanceModule {
    /// Records a transfer of `amount` from `from` to `to`, `irs` being the
    /// registry contract bound to `token`.
    ///
    /// # Errors
    ///
    /// * [`ModuleError::InvalidAmount`] - When `amount` is negative.
    /// * [`ModuleError::IdentityRegistryNotSet`] - When no registry is bound.
    /// * the registry's error when a wallet cannot be resolved.
    /// * [`ModuleError::MathOverflow`] - When the recipient's balance
    ///   overflows.
    /// * [`ContractError::MaxBalanceExceeded`] - When the recipient identity
    ///   would exceed the maximum.
    /// * [`ModuleError::MathUnderflow`] - When the sender's balance underflows.
    pub fn on_transfer<R: IRSRead>(&mut self, from: Address, to: Address, amount: i128, token: Address, irs: &R) -> (r: Result<(), ContractError>)
        requires
            old(self).base().registry_of(token) is None || old(self).base().registry_of(token) == Some(irs.spec_address()),
        ensures
            update_applied(old(self), final(self), token, transfer_update(old(self), irs, from, to, amount, token), r),
    {
        if amount < 0 {
            return Err(ContractError::Module(ModuleError::InvalidAmount));
        }
        match self.base.require_registry(token) {
            Err(e) => {
                return Err(e);
            },
            Ok(()) => {},
        }
        let from_id = match irs.stored_identity(from) {
            Ok(i) => i,
            Err(e) => {
                return Err(ContractError::Registry(e));
            },
        };
        let to_id = match irs.stored_identity(to) {
            Ok(i) => i,
            Err(e) => {
                return Err(ContractError::Registry(e));
            },
        };
        if from_id == to_id {
            return Ok(());
        }
        let from_balance = self.get_investor_balance(token, from_id);
        let to_balance = self.get_investor_balance(token, to_id);
        let new_to = match to_balance.checked_add(amount) {
            Some(v) => v,
            None => {
                return Err(ContractError::Module(ModuleError::MathOverflow));
            },
        };
        let max = self.get_max(token);
        if !(max == 0 || new_to <= max) {
            return Err(ContractError::MaxBalanceExceeded);
        }
        let new_from = match from_balance.checked_sub(amount) {
            Some(v) => v,
            None => {
                return Err(ContractError::Module(ModuleError::MathUnderflow));
            },
        };
        self.write_balance(token, from_id, new_from);
        self.write_balance(token, to_id, new_to);
        Ok(())
    }

    /// Records a mint of `amount` to `to`, `irs` being the registry contract
    /// bound to `token`.
    ///
    /// # Errors
    ///
    /// * [`ModuleError::InvalidAmount`] - When `amount` is negative.
    /// * [`ModuleError::IdentityRegistryNotSet`] - When no registry is bound.
    /// * the registry's error when `to` cannot be resolved.
    /// * [`ModuleError::MathOverflow`] - When the balance overflows.
    /// * [`ContractError::MaxBalanceExceeded`] - When the recipient identity
    ///   would exceed the maximum.
    pub fn on_created<R: IRSRead>(&mut self, to: Address, amount: i128, token: Address, irs: &R) -> (r: Result<(), ContractError>)
        requires
            old(self).base().registry_of(token) is None || old(self).base().registry_of(token) == Some(irs.spec_address()),
        ensures
            update_applied(old(self), final(self), token, mint_update(old(self), irs, to, amount, token), r),
    {
        if amount < 0 {
            return Err(ContractError::Module(ModuleError::InvalidAmount));
        }
        match self.base.require_registry(token) {
            Err(e) => {
                return Err(e);
            },
            Ok(()) => {},
        }
        let to_id = match irs.stored_identity(to) {
            Ok(i) => i,
            Err(e) => {
                return Err(ContractError::Registry(e));
            },
        };
        let current = self.get_investor_balance(token, to_id);
        let new_balance = match current.checked_add(amount) {
            Some(v) => v,
            None => {
                return Err(ContractError::Module(ModuleError::MathOverflow));
            },
        };
        let max = self.get_max(token);
        if !(max == 0 || new_balance <= max) {
            return Err(ContractError::MaxBalanceExceeded);
        }
        self.write_balance(token, to_id, new_balance);
        Ok(())
    }

    /// Records a burn of `amount` from `from`, `irs` being the registry
    /// contract bound to `token`.
    ///
    /// # Errors
    ///
    /// * [`ModuleError::InvalidAmount`] - When `amount` is negative.
    /// * [`ModuleError::IdentityRegistryNotSet`] - When no registry is bound.
    /// * the registry's error when `from` cannot be resolved.
    /// * [`ModuleError::MathUnderflow`] - When the balance underflows.
    pub fn on_destroyed<R: IRSRead>(&mut self, from: Address, amount: i128, token: Address, irs: &R) -> (r: Result<(), ContractError>)
        requires
            old(self).base().registry_of(token) is None || old(self).base().registry_of(token) == Some(irs.spec_address()),
        ensures
            update_applied(old(self), final(self), token, burn_update(old(self), irs, from, amount, token), r),
    {
        if amount < 0 {
            return Err(ContractError::Module(ModuleError::InvalidAmount));
        }
        match self.base.require_registry(token) {
            Err(e) => {
                return Err(e);
            },
            Ok(()) => {},
        }
        let id = match irs.stored_identity(from) {
            Ok(i) => i,
            Err(e) => {
                return Err(ContractError::Registry(e));
            },
        };
        let current = self.get_investor_balance(token, id);
        let new_balance = match current.checked_sub(amount) {
            Some(v) => v,
            None => {
                return Err(ContractError::Module(ModuleError::MathUnderflow));
            },
        };
        self.write_balance(token, id, new_balance);
        Ok(())
    }

    /// Returns whether a transfer of `amount` to `to` passes the maximum,
    /// `irs` being the registry contract bound to `token`. With no maximum
    /// every non-negative amount passes without a lookup.
    ///
    /// # Errors
    ///
    /// * [`ModuleError::IdentityRegistryNotSet`] - When a lookup is needed
    ///   and no registry is bound.
    /// * the registry's error when `to` cannot be resolved.
    /// * [`ModuleError::MathOverflow`] - When the sum overflows.
    pub fn can_transfer<R: IRSRead>(&self, from: Address, to: Address, amount: i128, token: Address, irs: &R) -> (r: Result<bool, ContractError>)
        requires
            self.base().registry_of(token) is None || self.base().registry_of(token) == Some(irs.spec_address()),
        ensures
            r == transfer_check(self, irs, to, amount, token),
    {
        if amount < 0 {
            return Ok(false);
        }
        let max = self.get_max(token);
        if max == 0 || amount > max {
            return Ok(max == 0);
        }
        match self.base.require_registry(token) {
            Err(e) => {
                return Err(e);
            },
            Ok(()) => {},
        }
        let to_id = match irs.stored_identity(to) {
            Ok(i) => i,
            Err(e) => {
                return Err(ContractError::Registry(e));
            },
        };
        let to_balance = self.get_investor_balance(token, to_id);
        match to_balance.checked_add(amount) {
            Some(v) => Ok(v <= max),
            None => Err(ContractError::Module(ModuleError::MathOverflow)),
        }
    }

    /// Returns whether a mint of `amount` to `to` passes; see
    /// [`Self::can_transfer`].
    ///
    /// # Errors
    ///
    /// * see [`Self::can_transfer`].
    pub fn can_create<R: IRSRead>(&self, to: Address, amount: i128, token: Address, irs: &R) -> (r: Result<bool, ContractError>)
        requires
            self.base().registry_of(token) is None || self.base().registry_of(token) == Some(irs.spec_address()),
        ensures
            r == transfer_check(self, irs, to, amount, token),
    {
        self.can_transfer(to, to, amount, token, irs)
    }

    /// The contract's name.
    pub fn name(&self) -> (r: String)
        ensures
            r@ == "MaxBalanceModule"@,
    {
        String::from_str("MaxBalanceModule")
    }

    /// Returns the compliance contract, or `self_address` when none is set.
    pub fn get_compliance_address(&self, self_address: Address) -> (r: Address)
        ensures
            r == (match self.base().compliance() {
                Some(c) => c,
                None => self_address,
            }),
    {
        self.base.get_compliance_address(self_address)
    }

    /// Sets the compliance contract.
    pub fn set_compliance_address(&mut self, compliance: Address)
        ensures
            final(self).base().compliance() == Some(compliance),
            forall|t: Address| #[trigger] final(self).base().registry_of(t) == old(self).base().registry_of(t),
            forall|t: Address| #[trigger] final(self).max_of(t) == old(self).max_of(t),
            forall|t: Address, i: Address| #[trigger] final(self).balance_of(t, i) == old(self).balance_of(t, i),
    {
        self.base.set_compliance_address(compliance);
    }
}

/// A transfer only moves balance between two identities.
pub proof fn lemma_transfer_update_conserves<R: IRSRead>(s: &MaxBalanceModule, reg: &R, from: Address, to: Address, amount: i128, token: Address)
    ensures
        transfer_update(s, reg, from, to, amount, token) matches Ok(Some((a, na, b, nb))) ==> a != b
            && na + nb == s.balance_of(token, a) + s.balance_of(token, b),
{
}

/// A maximum of zero means no maximum: every balance fits; a positive
/// maximum admits exactly the balances up to it.
pub proof fn lemma_zero_max_means_no_cap(balance: int, max: i128)
    ensures
        within_max(balance, 0),
        max > 0 ==> (within_max(balance, max) <==> balance <= max),
{
}

/// The transfer check: with no maximum every non-negative amount passes;
/// an amount above a positive maximum never passes; otherwise it passes
/// exactly when the balance of the recipient's identity `id` plus the
/// amount stays within the maximum.
pub proof fn lemma_transfer_check_cases<R: IRSRead>(
    s: &MaxBalanceModule,
    reg: &R,
    to: Address,
    amount: i128,
    token: Address,
    id: Address,
)
    ensures
        amount >= 0 && s.max_of(token) == 0 ==> transfer_check(s, reg, to, amount, token) == Ok::<
            bool,
            ContractError,
        >(true),
        s.max_of(token) > 0 && amount > s.max_of(token) ==> transfer_check(s, reg, to, amount, token) == Ok::<
            bool,
            ContractError,
        >(false),
        0 <= amount <= s.max_of(token) && s.max_of(token) > 0 && s.base().registry_of(token) is Some && reg.spec_identity(to) == Some(
            id,
        ) && s.balance_of(token, id) + amount <= i128::MAX ==> transfer_check(s, reg, to, amount, token) == Ok::<
            bool,
            ContractError,
        >(s.balance_of(token, id) + amount <= s.max_of(token)),
{
}

} // verus!
