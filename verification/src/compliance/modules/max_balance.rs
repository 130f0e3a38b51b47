//! Maximum balance: a per-token cap on the aggregate balance of each
//! identity. Balances are tracked per identity, not per wallet, so every
//! wallet that the identity registry links to one identity shares one
//! tracked balance. The module credits and debits those balances on every
//! transfer, mint and burn, and refuses a transfer or mint that would push
//! the recipient identity above the cap. A preset phase lets the operator
//! seed balances for a token that already has holders.

use super::storage::{add_i128_or_panic, require_non_negative_amount, sub_i128_or_panic, IRSRead};
use super::{ComplianceModuleError, HookError};
use crate::common::{lemma_pair_injective, pair, pair_key, Address};
use crate::compliance::TransferKind;
use crate::identity_registry_storage::IRSError;
use std::collections::{HashMap, HashSet};
use std::vec::Vec;
use vstd::prelude::*;

verus! {

broadcast use vstd::std_specs::hash::group_hash_axioms;

/// The module's state: per token the cap and the finalized-preset flag, and
/// per `(token, identity)` the tracked aggregate balance.
pub struct MaxBalances {
    max: HashMap<Address, i128>,
    balances: HashMap<u128, i128>,
    preset_completed: HashSet<Address>,
}

impl MaxBalances {
    /// The cap of `token`; `0` when none was configured, which blocks every
    /// positive credit.
    pub closed spec fn max_of(&self, token: Address) -> i128 {
        if self.max@.contains_key(token) {
            self.max@[token]
        } else {
            0
        }
    }

    /// The tracked balance of `identity` under `token`; `0` when none was
    /// recorded.
    pub closed spec fn balance_of(&self, token: Address, identity: Address) -> i128 {
        if self.balances@.contains_key(pair(token, identity)) {
            self.balances@[pair(token, identity)]
        } else {
            0
        }
    }

    /// Whether the preset phase of `token` is finalized.
    pub closed spec fn preset_done(&self, token: Address) -> bool {
        self.preset_completed@.contains(token)
    }

    /// No cap, balance or finalized preset for any token.
    pub fn new() -> (s: Self)
        ensures
            forall|t: Address| #[trigger] s.max_of(t) == 0 && !s.preset_done(t),
            forall|t: Address, i: Address| #[trigger] s.balance_of(t, i) == 0,
    {
        MaxBalances { max: HashMap::new(), balances: HashMap::new(), preset_completed: HashSet::new() }
    }
}

/// `s2` differs from `s1` at most in the balances of `a` and `b` under
/// `token`.
pub open spec fn only_balances_changed(
    s1: &MaxBalances,
    s2: &MaxBalances,
    token: Address,
    a: Address,
    b: Address,
) -> bool {
    &&& forall|t: Address| #[trigger] s2.max_of(t) == s1.max_of(t)
    &&& forall|t: Address| #[trigger] s2.preset_done(t) == s1.preset_done(t)
    &&& forall|t: Address, i: Address|
        !(t == token && (i == a || i == b)) ==> #[trigger] s2.balance_of(t, i) == s1.balance_of(t, i)
}

/// The identity the registry links to `account`.
pub open spec fn resolve<R: IRSRead>(reg: &R, account: Address) -> Result<Address, IRSError> {
    match reg.spec_identity(account) {
        Some(i) => Ok(i),
        None => Err(IRSError::IdentityNotFound),
    }
}

/// The identity of a sender: its live identity, or, when account recovery
/// already moved that identity away, the identity of the wallet it was
/// recovered to.
pub open spec fn resolve_sender<R: IRSRead>(reg: &R, from: Address) -> Result<Address, IRSError> {
    match reg.spec_identity(from) {
        Some(i) => Ok(i),
        None => match reg.spec_recovered_to(from) {
            Some(w) => resolve(reg, w),
            None => Err(IRSError::IdentityNotFound),
        },
    }
}

/// The balance after crediting `amount` to `balance`, or the error that
/// refuses it; the cap `max` is enforced only when `capped`.
pub open spec fn credit_outcome(balance: i128, max: i128, amount: i128, capped: bool) -> Result<
    i128,
    ComplianceModuleError,
> {
    if !(i128::MIN <= balance + amount <= i128::MAX) {
        Err(ComplianceModuleError::MathOverflow)
    } else if capped && balance + amount > max {
        Err(ComplianceModuleError::MaxBalanceExceeded)
    } else {
        Ok((balance + amount) as i128)
    }
}

/// The balance after debiting `amount` from `balance`, or the error that
/// refuses it.
pub open spec fn debit_outcome(balance: i128, amount: i128) -> Result<i128, ComplianceModuleError> {
    if !(0 <= balance - amount <= i128::MAX) {
        Err(ComplianceModuleError::MathUnderflow)
    } else {
        Ok((balance - amount) as i128)
    }
}

/// Whether the cap applies to a transfer of `kind`: forced transfers and
/// recoveries are privileged and exempt, though their bookkeeping is still
/// applied.
pub open spec fn cap_applies(kind: TransferKind) -> bool {
    kind != TransferKind::Forced && kind != TransferKind::Recovery
}

/// What a hook does to the books: an error, nothing (`None`), or the new
/// balances of two identities, `(a, balance of a, b, balance of b)`.
pub type Plan = Result<Option<(Address, i128, Address, i128)>, HookError>;

/// `s2` and `r` are what carrying out `plan` on `s1` gives.
pub open spec fn plan_applied(
    s1: &MaxBalances,
    s2: &MaxBalances,
    token: Address,
    plan: Plan,
    r: Result<(), HookError>,
) -> bool {
    match plan {
        Err(e) => r == Err::<(), HookError>(e) && *s2 == *s1,
        Ok(None) => r is Ok && *s2 == *s1,
        Ok(Some((a, na, b, nb))) => {
            &&& r is Ok
            &&& s2.balance_of(token, a) == na
            &&& s2.balance_of(token, b) == nb
            &&& only_balances_changed(s1, s2, token, a, b)
        },
    }
}

/// The plan of a transfer of `amount` from `from` to `to`: after the
/// amount is validated and both wallets are resolved, a transfer between
/// two wallets of one identity changes nothing; otherwise the sender
/// identity is debited and the recipient identity credited.
pub open spec fn transfer_plan<R: IRSRead>(
    s: &MaxBalances,
    reg: &R,
    from: Address,
    to: Address,
    amount: i128,
    kind: TransferKind,
    token: Address,
) -> Plan {
    if amount < 0 {
        Err(HookError::Module(ComplianceModuleError::InvalidAmount))
    } else {
        match resolve(reg, to) {
            Err(e) => Err(HookError::Registry(e)),
            Ok(id_to) => match resolve_sender(reg, from) {
                Err(e) => Err(HookError::Registry(e)),
                Ok(id_from) => if id_from == id_to {
                    Ok(None)
                } else {
                    match debit_outcome(s.balance_of(token, id_from), amount) {
                        Err(e) => Err(HookError::Module(e)),
                        Ok(nf) => match credit_outcome(
                            s.balance_of(token, id_to),
                            s.max_of(token),
                            amount,
                            cap_applies(kind),
                        ) {
                            Err(e) => Err(HookError::Module(e)),
                            Ok(nt) => Ok(Some((id_from, nf, id_to, nt))),
                        },
                    }
                },
            },
        }
    }
}

/// The plan of a mint of `amount` to `to`: a capped credit of the
/// recipient identity.
pub open spec fn mint_plan<R: IRSRead>(s: &MaxBalances, reg: &R, to: Address, amount: i128, token: Address) -> Plan {
    if amount < 0 {
        Err(HookError::Module(ComplianceModuleError::InvalidAmount))
    } else {
        match resolve(reg, to) {
            Err(e) => Err(HookError::Registry(e)),
            Ok(id) => match credit_outcome(s.balance_of(token, id), s.max_of(token), amount, true) {
                Err(e) => Err(HookError::Module(e)),
                Ok(n) => Ok(Some((id, n, id, n))),
            },
        }
    }
}

/// The plan of a burn of `amount` from `from`: a debit of the holder
/// identity.
pub open spec fn burn_plan<R: IRSRead>(s: &MaxBalances, reg: &R, from: Address, amount: i128, token: Address) -> Plan {
    if amount < 0 {
        Err(HookError::Module(ComplianceModuleError::InvalidAmount))
    } else {
        match resolve(reg, from) {
            Err(e) => Err(HookError::Registry(e)),
            Ok(id) => match debit_outcome(s.balance_of(token, id), amount) {
                Err(e) => Err(HookError::Module(e)),
                Ok(n) => Ok(Some((id, n, id, n))),
            },
        }
    }
}

/// Whether an identity holding `balance` may receive `amount` under the
/// cap `max`.
pub open spec fn receive_allowed(balance: i128, max: i128, amount: i128) -> bool {
    amount >= 0 && balance + amount <= max
}

/// Returns the cap of `token` (`0` when none was configured).
pub fn get_max_balance(s: &MaxBalances, token: Address) -> (r: i128)
    ensures
        r == s.max_of(token),
{
    match s.max.get(&token) {
        Some(v) => *v,
        None => 0,
    }
}

/// Returns the tracked balance of `identity` under `token` (`0` when none
/// was recorded).
pub fn get_id_balance(s: &MaxBalances, token: Address, identity: Address) -> (r: i128)
    ensures
        r == s.balance_of(token, identity),
{
    match s.balances.get(&pair_key(token, identity)) {
        Some(v) => *v,
        None => 0,
    }
}

/// Returns whether the preset phase of `token` is finalized.
pub fn is_preset_completed(s: &MaxBalances, token: Address) -> (r: bool)
    ensures
        r == s.preset_done(token),
{
    s.preset_completed.contains(&token)
}

/// Resolves `from` as a sender: its live identity, or that of the wallet it
/// was recovered to.
fn resolve_sender_identity<R: IRSRead>(reg: &R, from: Address) -> (r: Result<Address, IRSError>)
    ensures
        r == resolve_sender(reg, from),
{
    match reg.stored_identity(from) {
        Ok(id) => Ok(id),
        Err(err) => match reg.get_recovered_to(from) {
            Some(w) => reg.stored_identity(w),
            None => Err(err),
        },
    }
}

/// Returns the tracked balance of the identity linked to `account`.
///
/// # Errors
///
/// * [`ComplianceModuleError::IdentityRegistryNotSet`] - When no registry is
///   configured for `token` (`irs` is `None`).
/// * the registry's error when `account` has no identity.
pub fn get_id_balance_of<R: IRSRead>(s: &MaxBalances, token: Address, account: Address, irs: Option<&R>) -> (r:
    Result<i128, HookError>)
    ensures
        irs is None ==> r == Err::<i128, HookError>(
            HookError::Module(ComplianceModuleError::IdentityRegistryNotSet),
        ),
        irs matches Some(reg) ==> r == (match resolve(reg, account) {
            Ok(id) => Ok::<i128, HookError>(s.balance_of(token, id)),
            Err(e) => Err::<i128, HookError>(HookError::Registry(e)),
        }),
{
    let reg = match irs {
        Some(reg) => reg,
        None => {
            return Err(HookError::Module(ComplianceModuleError::IdentityRegistryNotSet));
        },
    };
    match reg.stored_identity(account) {
        Ok(id) => Ok(get_id_balance(s, token, id)),
        Err(e) => Err(HookError::Registry(e)),
    }
}

/// Sets the cap of `token`.
///
/// # Errors
///
/// * [`ComplianceModuleError::InvalidAmount`] - When `max` is negative.
pub fn set_max_balance(s: &mut MaxBalances, token: Address, max: i128) -> (r: Result<
    (),
    ComplianceModuleError,
>)
    ensures
        max < 0 ==> r == Err::<(), ComplianceModuleError>(ComplianceModuleError::InvalidAmount)
            && *final(s) == *old(s),
        max >= 0 ==> r is Ok && final(s).max_of(token) == max,
        forall|t: Address| t != token ==> #[trigger] final(s).max_of(t) == old(s).max_of(t),
        forall|t: Address, i: Address| #[trigger] final(s).balance_of(t, i) == old(s).balance_of(t, i),
        forall|t: Address| #[trigger] final(s).preset_done(t) == old(s).preset_done(t),
{
    match require_non_negative_amount(max) {
        Err(e) => Err(e),
        Ok(()) => {
            s.max.insert(token, max);
            Ok(())
        },
    }
}

/// Writes the tracked balance of `identity` under `token` directly,
/// skipping the cap; the caller enforces it.
pub fn set_id_balance(s: &mut MaxBalances, token: Address, identity: Address, balance: i128)
    ensures
        final(s).balance_of(token, identity) == balance,
        only_balances_changed(old(s), final(s), token, identity, identity),
{
    s.balances.insert(pair_key(token, identity), balance);
    proof {
        assert forall|t: Address, i: Address| !(t == token && (i == identity || i == identity)) implies #[trigger] final(s).balance_of(t, i)
            == old(s).balance_of(t, i) by {
            lemma_pair_injective(t, i, token, identity);
        }
    }
}

/// Computes a credit without writing it.
fn credit_value(balance: i128, max: i128, amount: i128, capped: bool) -> (r: Result<
    i128,
    ComplianceModuleError,
>)
    ensures
        r == credit_outcome(balance, max, amount, capped),
{
    let next = match add_i128_or_panic(balance, amount) {
        Ok(v) => v,
        Err(e) => {
            return Err(e);
        },
    };
    if capped && next > max {
        return Err(ComplianceModuleError::MaxBalanceExceeded);
    }
    Ok(next)
}

/// Computes a debit without writing it.
fn debit_value(balance: i128, amount: i128) -> (r: Result<i128, ComplianceModuleError>)
    ensures
        r == debit_outcome(balance, amount),
{
    let next = match sub_i128_or_panic(balance, amount) {
        Ok(v) => v,
        Err(e) => {
            return Err(e);
        },
    };
    if next < 0 {
        return Err(ComplianceModuleError::MathUnderflow);
    }
    Ok(next)
}

/// Credits `amount` to the balance of `identity` under `token`, enforcing
/// the cap.
///
/// # Errors
///
/// * [`ComplianceModuleError::MathOverflow`] - When the addition overflows.
/// * [`ComplianceModuleError::MaxBalanceExceeded`] - When the new balance
///   would exceed the cap.
pub fn credit_identity(s: &mut MaxBalances, token: Address, identity: Address, amount: i128) -> (r:
    Result<(), ComplianceModuleError>)
    ensures
        match credit_outcome(old(s).balance_of(token, identity), old(s).max_of(token), amount, true) {
            Ok(n) => r is Ok && final(s).balance_of(token, identity) == n,
            Err(e) => r == Err::<(), ComplianceModuleError>(e) && *final(s) == *old(s),
        },
        only_balances_changed(old(s), final(s), token, identity, identity),
{
    let current = get_id_balance(s, token, identity);
    let max = get_max_balance(s, token);
    match credit_value(current, max, amount, true) {
        Ok(n) => {
            set_id_balance(s, token, identity, n);
            Ok(())
        },
        Err(e) => Err(e),
    }
}

/// Credits `amount` to the balance of `identity` under `token` without the
/// cap, for privileged transfers whose books must still be kept.
///
/// # Errors
///
/// * [`ComplianceModuleError::MathOverflow`] - When the addition overflows.
pub fn credit_identity_unchecked(s: &mut MaxBalances, token: Address, identity: Address, amount: i128) -> (r:
    Result<(), ComplianceModuleError>)
    ensures
        match credit_outcome(old(s).balance_of(token, identity), old(s).max_of(token), amount, false) {
            Ok(n) => r is Ok && final(s).balance_of(token, identity) == n,
            Err(e) => r == Err::<(), ComplianceModuleError>(e) && *final(s) == *old(s),
        },
        only_balances_changed(old(s), final(s), token, identity, identity),
{
    let current = get_id_balance(s, token, identity);
    let max = get_max_balance(s, token);
    match credit_value(current, max, amount, false) {
        Ok(n) => {
            set_id_balance(s, token, identity, n);
            Ok(())
        },
        Err(e) => Err(e),
    }
}

/// Debits `amount` from the balance of `identity` under `token`.
///
/// # Errors
///
/// * [`ComplianceModuleError::MathUnderflow`] - When the balance would turn
///   negative.
pub fn debit_identity(s: &mut MaxBalances, token: Address, identity: Address, amount: i128) -> (r:
    Result<(), ComplianceModuleError>)
    ensures
        match debit_outcome(old(s).balance_of(token, identity), amount) {
            Ok(n) => r is Ok && final(s).balance_of(token, identity) == n,
            Err(e) => r == Err::<(), ComplianceModuleError>(e) && *final(s) == *old(s),
        },
        only_balances_changed(old(s), final(s), token, identity, identity),
{
    let current = get_id_balance(s, token, identity);
    match debit_value(current, amount) {
        Ok(n) => {
            set_id_balance(s, token, identity, n);
            Ok(())
        },
        Err(e) => Err(e),
    }
}

/// Records a transfer of `amount` from `from` to `to`: the sender identity
/// is debited and the recipient identity credited, the cap being enforced
/// unless the transfer is forced or a recovery. A transfer between two
/// wallets of one identity changes nothing. A sender whose identity was
/// already moved away by account recovery is resolved through the wallet it
/// was recovered to.
///
/// # Errors
///
/// * [`ComplianceModuleError::InvalidAmount`] - When `amount` is negative.
/// * [`ComplianceModuleError::IdentityRegistryNotSet`] - When no registry is
///   configured for `token` (`irs` is `None`).
/// * the registry's error when a wallet cannot be resolved.
/// * see [`debit_identity`] and [`credit_identity`].
pub fn on_transfer<R: IRSRead>(
    s: &mut MaxBalances,
    from: Address,
    to: Address,
    amount: i128,
    kind: TransferKind,
    token: Address,
    irs: Option<&R>,
) -> (r: Result<(), HookError>)
    ensures
        amount < 0 ==> r == Err::<(), HookError>(HookError::Module(ComplianceModuleError::InvalidAmount))
            && *final(s) == *old(s),
        amount >= 0 && irs is None ==> r == Err::<(), HookError>(
            HookError::Module(ComplianceModuleError::IdentityRegistryNotSet),
        ) && *final(s) == *old(s),
        irs matches Some(reg) ==> plan_applied(
            old(s),
            final(s),
            token,
            transfer_plan(old(s), reg, from, to, amount, kind, token),
            r,
        ),
{
    if amount < 0 {
        return Err(HookError::Module(ComplianceModuleError::InvalidAmount));
    }
    let reg = match irs {
        Some(reg) => reg,
        None => {
            return Err(HookError::Module(ComplianceModuleError::IdentityRegistryNotSet));
        },
    };
    let id_to = match reg.stored_identity(to) {
        Ok(i) => i,
        Err(e) => {
            return Err(HookError::Registry(e));
        },
    };
    let id_from = match resolve_sender_identity(reg, from) {
        Ok(i) => i,
        Err(e) => {
            return Err(HookError::Registry(e));
        },
    };
    if id_from == id_to {
        return Ok(());
    }
    let nf = match debit_value(get_id_balance(s, token, id_from), amount) {
        Ok(v) => v,
        Err(e) => {
            return Err(HookError::Module(e));
        },
    };
    let capped = kind != TransferKind::Forced && kind != TransferKind::Recovery;
    let nt = match credit_value(get_id_balance(s, token, id_to), get_max_balance(s, token), amount, capped) {
        Ok(v) => v,
        Err(e) => {
            return Err(HookError::Module(e));
        },
    };
    set_id_balance(s, token, id_from, nf);
    set_id_balance(s, token, id_to, nt);
    Ok(())
}

/// Records a mint of `amount` to `to`: the recipient identity is credited
/// under the cap.
///
/// # Errors
///
/// * [`ComplianceModuleError::InvalidAmount`] - When `amount` is negative.
/// * [`ComplianceModuleError::IdentityRegistryNotSet`] - When no registry is
///   configured for `token` (`irs` is `None`).
/// * the registry's error when `to` cannot be resolved.
/// * see [`credit_identity`].
pub fn on_created<R: IRSRead>(s: &mut MaxBalances, to: Address, amount: i128, token: Address, irs: Option<&R>) -> (r:
    Result<(), HookError>)
    ensures
        amount < 0 ==> r == Err::<(), HookError>(HookError::Module(ComplianceModuleError::InvalidAmount))
            && *final(s) == *old(s),
        amount >= 0 && irs is None ==> r == Err::<(), HookError>(
            HookError::Module(ComplianceModuleError::IdentityRegistryNotSet),
        ) && *final(s) == *old(s),
        irs matches Some(reg) ==> plan_applied(old(s), final(s), token, mint_plan(old(s), reg, to, amount, token), r),
{
    if amount < 0 {
        return Err(HookError::Module(ComplianceModuleError::InvalidAmount));
    }
    let reg = match irs {
        Some(reg) => reg,
        None => {
            return Err(HookError::Module(ComplianceModuleError::IdentityRegistryNotSet));
        },
    };
    let id = match reg.stored_identity(to) {
        Ok(i) => i,
        Err(e) => {
            return Err(HookError::Registry(e));
        },
    };
    match credit_identity(s, token, id, amount) {
        Ok(()) => Ok(()),
        Err(e) => Err(HookError::Module(e)),
    }
}

/// Records a burn of `amount` from `from`: the holder identity is debited;
/// the cap is not consulted, as a burn only lowers the balance.
///
/// # Errors
///
/// * [`ComplianceModuleError::InvalidAmount`] - When `amount` is negative.
/// * [`ComplianceModuleError::IdentityRegistryNotSet`] - When no registry is
///   configured for `token` (`irs` is `None`).
/// * the registry's error when `from` cannot be resolved.
/// * see [`debit_identity`].
pub fn on_destroyed<R: IRSRead>(s: &mut MaxBalances, from: Address, amount: i128, token: Address, irs: Option<&R>) -> (r:
    Result<(), HookError>)
    ensures
        amount < 0 ==> r == Err::<(), HookError>(HookError::Module(ComplianceModuleError::InvalidAmount))
            && *final(s) == *old(s),
        amount >= 0 && irs is None ==> r == Err::<(), HookError>(
            HookError::Module(ComplianceModuleError::IdentityRegistryNotSet),
        ) && *final(s) == *old(s),
        irs matches Some(reg) ==> plan_applied(old(s), final(s), token, burn_plan(old(s), reg, from, amount, token), r),
{
    if amount < 0 {
        return Err(HookError::Module(ComplianceModuleError::InvalidAmount));
    }
    let reg = match irs {
        Some(reg) => reg,
        None => {
            return Err(HookError::Module(ComplianceModuleError::IdentityRegistryNotSet));
        },
    };
    let id = match reg.stored_identity(from) {
        Ok(i) => i,
        Err(e) => {
            return Err(HookError::Registry(e));
        },
    };
    match debit_identity(s, token, id, amount) {
        Ok(()) => Ok(()),
        Err(e) => Err(HookError::Module(e)),
    }
}

/// Returns whether the identity linked to `account` may receive `amount`
/// without exceeding the cap.
///
/// # Errors
///
/// * [`ComplianceModuleError::IdentityRegistryNotSet`] - When no registry is
///   configured for `token` (`irs` is `None`).
/// * the registry's error when `account` cannot be resolved.
pub fn can_receive<R: IRSRead>(s: &MaxBalances, account: Address, amount: i128, token: Address, irs: Option<&R>) -> (r:
    Result<bool, HookError>)
    ensures
        irs is None ==> r == Err::<bool, HookError>(
            HookError::Module(ComplianceModuleError::IdentityRegistryNotSet),
        ),
        irs matches Some(reg) ==> r == (match resolve(reg, account) {
            Ok(id) => Ok::<bool, HookError>(
                receive_allowed(s.balance_of(token, id), s.max_of(token), amount),
            ),
            Err(e) => Err::<bool, HookError>(HookError::Registry(e)),
        }),
{
    let reg = match irs {
        Some(reg) => reg,
        None => {
            return Err(HookError::Module(ComplianceModuleError::IdentityRegistryNotSet));
        },
    };
    let id = match reg.stored_identity(account) {
        Ok(i) => i,
        Err(e) => {
            return Err(HookError::Registry(e));
        },
    };
    Ok(receive_fits(get_id_balance(s, token, id), get_max_balance(s, token), amount))
}

/// Computes [`receive_allowed`].
fn receive_fits(balance: i128, max: i128, amount: i128) -> (r: bool)
    ensures
        r == receive_allowed(balance, max, amount),
{
    if amount < 0 {
        return false;
    }
    match balance.checked_add(amount) {
        Some(v) => v <= max,
        None => false,
    }
}

/// Returns whether a transfer of `amount` from `from` to `to` passes: a
/// transfer between two wallets of one identity always does; otherwise the
/// recipient identity must stay within the cap.
///
/// # Errors
///
/// * [`ComplianceModuleError::IdentityRegistryNotSet`] - When no registry is
///   configured for `token` (`irs` is `None`).
/// * the registry's error when a wallet cannot be resolved, `from` first.
pub fn can_transfer<R: IRSRead>(
    s: &MaxBalances,
    from: Address,
    to: Address,
    amount: i128,
    token: Address,
    irs: Option<&R>,
) -> (r: Result<bool, HookError>)
    ensures
        irs is None ==> r == Err::<bool, HookError>(
            HookError::Module(ComplianceModuleError::IdentityRegistryNotSet),
        ),
        irs matches Some(reg) ==> r == (match resolve(reg, from) {
            Err(e) => Err::<bool, HookError>(HookError::Registry(e)),
            Ok(id_from) => match resolve(reg, to) {
                Err(e) => Err::<bool, HookError>(HookError::Registry(e)),
                Ok(id_to) => Ok::<bool, HookError>(
                    id_from == id_to || receive_allowed(
                        s.balance_of(token, id_to),
                        s.max_of(token),
                        amount,
                    ),
                ),
            },
        }),
{
    let reg = match irs {
        Some(reg) => reg,
        None => {
            return Err(HookError::Module(ComplianceModuleError::IdentityRegistryNotSet));
        },
    };
    let id_from = match reg.stored_identity(from) {
        Ok(i) => i,
        Err(e) => {
            return Err(HookError::Registry(e));
        },
    };
    let id_to = match reg.stored_identity(to) {
        Ok(i) => i,
        Err(e) => {
            return Err(HookError::Registry(e));
        },
    };
    if id_from == id_to {
        return Ok(true);
    }
    Ok(receive_fits(get_id_balance(s, token, id_to), get_max_balance(s, token), amount))
}

/// Returns whether a mint of `amount` to `to` passes the cap.
///
/// # Errors
///
/// * see [`can_receive`].
pub fn can_create<R: IRSRead>(s: &MaxBalances, to: Address, amount: i128, token: Address, irs: Option<&R>) -> (r:
    Result<bool, HookError>)
    ensures
        irs is None ==> r == Err::<bool, HookError>(
            HookError::Module(ComplianceModuleError::IdentityRegistryNotSet),
        ),
        irs matches Some(reg) ==> r == (match resolve(reg, to) {
            Ok(id) => Ok::<bool, HookError>(
                receive_allowed(s.balance_of(token, id), s.max_of(token), amount),
            ),
            Err(e) => Err::<bool, HookError>(HookError::Registry(e)),
        }),
{
    can_receive(s, to, amount, token, irs)
}

/// Seeds the tracked balance of `identity` under `token`, without the cap.
///
/// # Errors
///
/// * [`ComplianceModuleError::InvalidAmount`] - When `balance` is negative.
/// * [`ComplianceModuleError::PresetAlreadyCompleted`] - When the preset
///   phase of `token` is finalized (and `balance` is not negative).
pub fn preset_id_balance(s: &mut MaxBalances, token: Address, identity: Address, balance: i128) -> (r:
    Result<(), ComplianceModuleError>)
    ensures
        balance < 0 ==> r == Err::<(), ComplianceModuleError>(ComplianceModuleError::InvalidAmount),
        balance >= 0 && old(s).preset_done(token) ==> r == Err::<(), ComplianceModuleError>(
            ComplianceModuleError::PresetAlreadyCompleted,
        ),
        r is Err ==> *final(s) == *old(s),
        balance >= 0 && !old(s).preset_done(token) ==> r is Ok && final(s).balance_of(token, identity)
            == balance,
        only_balances_changed(old(s), final(s), token, identity, identity),
{
    match require_non_negative_amount(balance) {
        Err(e) => Err(e),
        Ok(()) => {
            if is_preset_completed(s, token) {
                Err(ComplianceModuleError::PresetAlreadyCompleted)
            } else {
                set_id_balance(s, token, identity, balance);
                Ok(())
            }
        },
    }
}

/// The balance that seeding `ids` with `bals` in order leaves to `id`,
/// starting from `prior`: the last value written for `id` wins.
pub open spec fn seeded(ids: Seq<Address>, bals: Seq<i128>, id: Address, prior: i128) -> i128
    decreases ids.len(),
{
    if ids.len() == 0 {
        prior
    } else if ids.last() == id {
        bals[ids.len() - 1]
    } else {
        seeded(ids.drop_last(), bals, id, prior)
    }
}

/// The error, if any, of seeding balances `bals` for `n_ids` identities
/// when the preset phase is finalized or not (`done`).
pub open spec fn batch_preset_error(done: bool, n_ids: nat, bals: Seq<i128>) -> Option<
    ComplianceModuleError,
> {
    if n_ids != bals.len() {
        Some(ComplianceModuleError::BatchSizeMismatch)
    } else if bals.len() == 0 {
        None
    } else if bals[0] < 0 {
        Some(ComplianceModuleError::InvalidAmount)
    } else if done {
        Some(ComplianceModuleError::PresetAlreadyCompleted)
    } else if exists|i: int| 0 <= i < bals.len() && #[trigger] bals[i] < 0 {
        Some(ComplianceModuleError::InvalidAmount)
    } else {
        None
    }
}

/// Seeds the balances of several identities: `identities[i]` gets
/// `balances[i]`, in order, so the last value given for an identity wins.
/// Either every entry is written or none is.
///
/// # Errors
///
/// * [`ComplianceModuleError::BatchSizeMismatch`] - When the two lists have
///   different lengths.
/// * see [`preset_id_balance`], for the first entry that fails.
#[verifier::loop_isolation(false)]
pub fn batch_preset_id_balances(
    s: &mut MaxBalances,
    token: Address,
    identities: &Vec<Address>,
    balances: &Vec<i128>,
) -> (r: Result<(), ComplianceModuleError>)
    ensures
        match batch_preset_error(old(s).preset_done(token), identities@.len(), balances@) {
            Some(e) => r == Err::<(), ComplianceModuleError>(e) && *final(s) == *old(s),
            None => r is Ok,
        },
        forall|i: Address| #[trigger]
            final(s).balance_of(token, i) == seeded(
                identities@,
                balances@,
                i,
                old(s).balance_of(token, i),
            ) || r is Err,
        forall|t: Address, i: Address| t != token ==> #[trigger] final(s).balance_of(t, i) == old(s).balance_of(t, i),
        forall|t: Address| #[trigger] final(s).max_of(t) == old(s).max_of(t),
        forall|t: Address| #[trigger] final(s).preset_done(t) == old(s).preset_done(t),
{
    if identities.len() != balances.len() {
        return Err(ComplianceModuleError::BatchSizeMismatch);
    }
    if balances.len() == 0 {
        proof {
            assert forall|i: Address| #[trigger] final(s).balance_of(token, i) == seeded(
                identities@,
                balances@,
                i,
                old(s).balance_of(token, i),
            ) by {}
        }
        return Ok(());
    }
    if balances[0] < 0 {
        return Err(ComplianceModuleError::InvalidAmount);
    }
    if is_preset_completed(s, token) {
        return Err(ComplianceModuleError::PresetAlreadyCompleted);
    }
    let mut k: usize = 0;
    while k < balances.len()
        invariant
            k <= balances.len(),
            forall|j: int| 0 <= j < k ==> #[trigger] balances@[j] >= 0,
        decreases balances.len() - k,
    {
        if balances[k] < 0 {
            proof {
                assert(balances@[k as int] < 0);
            }
            return Err(ComplianceModuleError::InvalidAmount);
        }
        k = k + 1;
    }
    let ghost s0 = *old(s);
    let mut i: usize = 0;
    while i < identities.len()
        invariant
            i <= identities.len(),
            identities.len() == balances.len(),
            forall|x: Address| #[trigger]
                s.balance_of(token, x) == seeded(
                    identities@.take(i as int),
                    balances@,
                    x,
                    s0.balance_of(token, x),
                ),
            forall|t: Address, x: Address| t != token ==> #[trigger] s.balance_of(t, x) == s0.balance_of(t, x),
            forall|t: Address| #[trigger] s.max_of(t) == s0.max_of(t),
            forall|t: Address| #[trigger] s.preset_done(t) == s0.preset_done(t),
        decreases identities.len() - i,
    {
        let id = identities[i];
        set_id_balance(s, token, id, balances[i]);
        proof {
            assert(identities@.take(i + 1).drop_last() =~= identities@.take(i as int));
        }
        i = i + 1;
    }
    proof {
        assert(identities@.take(identities@.len() as int) =~= identities@);
    }
    Ok(())
}

/// Finalizes the preset phase of `token`; marking it again is harmless.
pub fn mark_preset_completed(s: &mut MaxBalances, token: Address)
    ensures
        final(s).preset_done(token),
        forall|t: Address| t != token ==> #[trigger] final(s).preset_done(t) == old(s).preset_done(t),
        forall|t: Address| #[trigger] final(s).max_of(t) == old(s).max_of(t),
        forall|t: Address, i: Address| #[trigger] final(s).balance_of(t, i) == old(s).balance_of(t, i),
{
    s.preset_completed.insert(token);
}

/// A transfer only moves tokens between two identities: what the sender
/// identity loses the recipient identity gains.
pub proof fn lemma_transfer_conserves_balances<R: IRSRead>(
    s: &MaxBalances,
    reg: &R,
    from: Address,
    to: Address,
    amount: i128,
    kind: TransferKind,
    token: Address,
)
    ensures
        transfer_plan(s, reg, from, to, amount, kind, token) matches Ok(Some((a, na, b, nb))) ==> a
            != b && na + nb == s.balance_of(token, a) + s.balance_of(token, b) && na == s.balance_of(
            token,
            a,
        ) - amount,
{
}

/// A transfer between two wallets of one identity changes no balance.
pub proof fn lemma_same_identity_transfer_is_noop<R: IRSRead>(
    s: &MaxBalances,
    reg: &R,
    from: Address,
    to: Address,
    amount: i128,
    kind: TransferKind,
    token: Address,
)
    requires
        amount >= 0,
        resolve(reg, to) is Ok,
        resolve_sender(reg, from) == resolve(reg, to),
    ensures
        transfer_plan(s, reg, from, to, amount, kind, token) == Ok::<
            Option<(Address, i128, Address, i128)>,
            HookError,
        >(None),
{
}

/// Outside forced transfers and recoveries, no transfer or mint that goes
/// through leaves the recipient identity above the cap.
pub proof fn lemma_credit_respects_cap<R: IRSRead>(
    s: &MaxBalances,
    reg: &R,
    from: Address,
    to: Address,
    amount: i128,
    kind: TransferKind,
    token: Address,
)
    ensures
        cap_applies(kind) ==> (transfer_plan(s, reg, from, to, amount, kind, token) matches Ok(
            Some((a, na, b, nb)),
        ) ==> nb <= s.max_of(token)),
        mint_plan(s, reg, to, amount, token) matches Ok(Some((a, na, b, nb))) ==> nb <= s.max_of(
            token,
        ),
{
}

/// Balances that are not negative stay so through every transfer, mint and
/// burn that goes through.
pub proof fn lemma_balances_stay_non_negative<R: IRSRead>(
    s: &MaxBalances,
    reg: &R,
    from: Address,
    to: Address,
    amount: i128,
    kind: TransferKind,
    token: Address,
)
    requires
        forall|i: Address| #[trigger] s.balance_of(token, i) >= 0,
    ensures
        transfer_plan(s, reg, from, to, amount, kind, token) matches Ok(Some((a, na, b, nb))) ==> na
            >= 0 && nb >= 0,
        mint_plan(s, reg, to, amount, token) matches Ok(Some((a, na, b, nb))) ==> na >= 0,
        burn_plan(s, reg, from, amount, token) matches Ok(Some((a, na, b, nb))) ==> na >= 0,
{
}

/// How a sender is resolved: a wallet with a live identity resolves to it;
/// a wallet whose identity account recovery moved away resolves to the
/// identity of the wallet it was recovered to; any other wallet has no
/// identity.
pub proof fn lemma_sender_resolution<R: IRSRead>(reg: &R, from: Address)
    ensures
        reg.spec_identity(from) matches Some(i) ==> resolve_sender(reg, from) == Ok::<Address, IRSError>(i),
        reg.spec_identity(from) is None ==> (match reg.spec_recovered_to(from) {
            Some(w) => resolve_sender(reg, from) == (match reg.spec_identity(w) {
                Some(i) => Ok::<Address, IRSError>(i),
                None => Err::<Address, IRSError>(IRSError::IdentityNotFound),
            }),
            None => resolve_sender(reg, from) == Err::<Address, IRSError>(IRSError::IdentityNotFound),
        }),
{
}

/// Moving tokens from a recovered wallet to the wallet it was recovered to
/// (or to any wallet of the same identity) is accepted and changes no
/// balance: both ends resolve to one identity.
pub proof fn lemma_recovery_transfer_is_noop<R: IRSRead>(
    s: &MaxBalances,
    reg: &R,
    from: Address,
    to: Address,
    amount: i128,
    kind: TransferKind,
    token: Address,
    new_wallet: Address,
)
    requires
        amount >= 0,
        reg.spec_identity(from) is None,
        reg.spec_recovered_to(from) == Some(new_wallet),
        reg.spec_identity(new_wallet) is Some,
        reg.spec_identity(to) == reg.spec_identity(new_wallet),
    ensures
        transfer_plan(s, reg, from, to, amount, kind, token) == Ok::<
            Option<(Address, i128, Address, i128)>,
            HookError,
        >(None),
{
}

/// A transfer between wallets of two different identities goes through
/// whenever the sender identity holds the amount and the recipient
/// identity stays within the cap (forced transfers and recoveries are not
/// capped): the sender identity is debited and the recipient identity
/// credited by exactly the amount.
pub proof fn lemma_transfer_within_cap_goes_through<R: IRSRead>(
    s: &MaxBalances,
    reg: &R,
    from: Address,
    to: Address,
    amount: i128,
    kind: TransferKind,
    token: Address,
    a: Address,
    b: Address,
)
    requires
        amount >= 0,
        reg.spec_identity(from) == Some(a),
        reg.spec_identity(to) == Some(b),
        a != b,
        s.balance_of(token, a) >= amount,
        s.balance_of(token, b) + amount <= i128::MAX,
        cap_applies(kind) ==> s.balance_of(token, b) + amount <= s.max_of(token),
    ensures
        transfer_plan(s, reg, from, to, amount, kind, token) == Ok::<
            Option<(Address, i128, Address, i128)>,
            HookError,
        >(Some((a, (s.balance_of(token, a) - amount) as i128, b, (s.balance_of(token, b) + amount) as i128))),
{
}

} // verus!
