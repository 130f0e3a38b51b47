//! Supply limit: a per-token cap on the circulating supply. The module keeps
//! its own running supply counter, incremented by the mint hook and
//! decremented by the burn hook, and refuses a mint that would push the
//! counter above the cap. For a token that already has circulating supply,
//! a preset phase lets the operator seed the counter before it is
//! finalized.

use super::storage::{add_i128_or_panic, require_non_negative_amount, sub_i128_or_panic};
use super::ComplianceModuleError;
use crate::common::Address;
use std::collections::{HashMap, HashSet};
use vstd::prelude::*;

verus! {

broadcast use vstd::std_specs::hash::group_hash_axioms;

/// The module's state: per token, the configured cap, the running supply
/// counter and whether the preset phase is finalized.
pub struct SupplyLimits {
    limits: HashMap<Address, i128>,
    counts: HashMap<Address, i128>,
    preset_completed: HashSet<Address>,
}

impl SupplyLimits {
    /// The configured cap of `token`; `0` when none was configured, which
    /// blocks every positive mint.
    pub closed spec fn limit_of(&self, token: Address) -> i128 {
        if self.limits@.contains_key(token) {
            self.limits@[token]
        } else {
            0
        }
    }

    /// The running supply counter of `token`; `0` when none was recorded.
    pub closed spec fn count_of(&self, token: Address) -> i128 {
        if self.counts@.contains_key(token) {
            self.counts@[token]
        } else {
            0
        }
    }

    /// Whether the preset phase of `token` is finalized.
    pub closed spec fn preset_done(&self, token: Address) -> bool {
        self.preset_completed@.contains(token)
    }

    /// No cap, counter or finalized preset for any token.
    pub fn new() -> (s: Self)
        ensures
            forall|t: Address|
                #[trigger] s.limit_of(t) == 0 && s.count_of(t) == 0 && !s.preset_done(t),
    {
        SupplyLimits { limits: HashMap::new(), counts: HashMap::new(), preset_completed: HashSet::new() }
    }
}

/// `s2` differs from `s1` at most in the counter of `token`.
pub open spec fn only_count_changed(s1: &SupplyLimits, s2: &SupplyLimits, token: Address) -> bool {
    &&& forall|t: Address| #[trigger] s2.limit_of(t) == s1.limit_of(t)
    &&& forall|t: Address| #[trigger] s2.preset_done(t) == s1.preset_done(t)
    &&& forall|t: Address| t != token ==> #[trigger] s2.count_of(t) == s1.count_of(t)
}

/// Returns the configured cap of `token` (`0` when none was configured).
pub fn get_supply_limit(s: &SupplyLimits, token: Address) -> (r: i128)
    ensures
        r == s.limit_of(token),
{
    match s.limits.get(&token) {
        Some(v) => *v,
        None => 0,
    }
}

/// Returns the running supply counter of `token` (`0` when none was
/// recorded).
pub fn get_supply_count(s: &SupplyLimits, token: Address) -> (r: i128)
    ensures
        r == s.count_of(token),
{
    match s.counts.get(&token) {
        Some(v) => *v,
        None => 0,
    }
}

/// Returns whether the preset phase of `token` is finalized.
pub fn is_preset_completed(s: &SupplyLimits, token: Address) -> (r: bool)
    ensures
        r == s.preset_done(token),
{
    s.preset_completed.contains(&token)
}

/// Writes the counter of `token` directly, skipping the cap; the caller
/// enforces it.
pub fn set_supply_count(s: &mut SupplyLimits, token: Address, supply: i128)
    ensures
        final(s).count_of(token) == supply,
        only_count_changed(old(s), final(s), token),
{
    s.counts.insert(token, supply);
}

/// Sets the cap of `token`.
///
/// # Errors
///
/// * [`ComplianceModuleError::InvalidAmount`] - When `limit` is negative.
pub fn set_supply_limit(s: &mut SupplyLimits, token: Address, limit: i128) -> (r: Result<
    (),
    ComplianceModuleError,
>)
    ensures
        limit < 0 ==> r == Err::<(), ComplianceModuleError>(ComplianceModuleError::InvalidAmount)
            && *final(s) == *old(s),
        limit >= 0 ==> r is Ok && final(s).limit_of(token) == limit,
        forall|t: Address| t != token ==> #[trigger] final(s).limit_of(t) == old(s).limit_of(t),
        forall|t: Address| #[trigger] final(s).count_of(t) == old(s).count_of(t),
        forall|t: Address| #[trigger] final(s).preset_done(t) == old(s).preset_done(t),
{
    match require_non_negative_amount(limit) {
        Err(e) => Err(e),
        Ok(()) => {
            s.limits.insert(token, limit);
            Ok(())
        },
    }
}

/// Seeds the counter of `token` with its existing circulating supply. The
/// seeded value may exceed the cap; mints then stay blocked until burns
/// bring the counter back under it. Repeated presets overwrite each other
/// until the phase is finalized.
///
/// # Errors
///
/// * [`ComplianceModuleError::InvalidAmount`] - When `supply` is negative.
/// * [`ComplianceModuleError::PresetAlreadyCompleted`] - When the preset
///   phase of `token` is finalized (and `supply` is not negative).
pub fn preset_supply_count(s: &mut SupplyLimits, token: Address, supply: i128) -> (r: Result<
    (),
    ComplianceModuleError,
>)
    ensures
        supply < 0 ==> r == Err::<(), ComplianceModuleError>(ComplianceModuleError::InvalidAmount),
        supply >= 0 && old(s).preset_done(token) ==> r == Err::<(), ComplianceModuleError>(
            ComplianceModuleError::PresetAlreadyCompleted,
        ),
        r is Err ==> *final(s) == *old(s),
        supply >= 0 && !old(s).preset_done(token) ==> r is Ok && final(s).count_of(token) == supply,
        only_count_changed(old(s), final(s), token),
{
    match require_non_negative_amount(supply) {
        Err(e) => Err(e),
        Ok(()) => {
            if is_preset_completed(s, token) {
                Err(ComplianceModuleError::PresetAlreadyCompleted)
            } else {
                set_supply_count(s, token, supply);
                Ok(())
            }
        },
    }
}

/// Finalizes the preset phase of `token`; marking it again is harmless.
pub fn mark_preset_completed(s: &mut SupplyLimits, token: Address)
    ensures
        final(s).preset_done(token),
        forall|t: Address| t != token ==> #[trigger] final(s).preset_done(t) == old(s).preset_done(t),
        forall|t: Address| #[trigger] final(s).limit_of(t) == old(s).limit_of(t),
        forall|t: Address| #[trigger] final(s).count_of(t) == old(s).count_of(t),
{
    s.preset_completed.insert(token);
}

/// The counter after a mint of `amount` on a counter of `count` under cap
/// `limit`, or the error that refuses the mint.
pub open spec fn mint_outcome(count: i128, limit: i128, amount: i128) -> Result<
    i128,
    ComplianceModuleError,
> {
    if amount < 0 {
        Err(ComplianceModuleError::InvalidAmount)
    } else if count + amount > i128::MAX {
        Err(ComplianceModuleError::MathOverflow)
    } else if count + amount > limit {
        Err(ComplianceModuleError::SupplyLimitExceeded)
    } else {
        Ok((count + amount) as i128)
    }
}

/// The counter after a burn of `amount` on a counter of `count`, or the
/// error that refuses the burn.
pub open spec fn burn_outcome(count: i128, amount: i128) -> Result<i128, ComplianceModuleError> {
    if amount < 0 {
        Err(ComplianceModuleError::InvalidAmount)
    } else if count - amount < 0 {
        Err(ComplianceModuleError::MathUnderflow)
    } else {
        Ok((count - amount) as i128)
    }
}

/// Records a mint of `amount` on `token`: the counter grows by `amount`
/// unless that would exceed the cap.
///
/// # Errors
///
/// * [`ComplianceModuleError::InvalidAmount`] - When `amount` is negative.
/// * [`ComplianceModuleError::MathOverflow`] - When the counter addition
///   overflows.
/// * [`ComplianceModuleError::SupplyLimitExceeded`] - When the new counter
///   would exceed the cap.
pub fn on_created(s: &mut SupplyLimits, to: Address, amount: i128, token: Address) -> (r: Result<
    (),
    ComplianceModuleError,
>)
    ensures
        match mint_outcome(old(s).count_of(token), old(s).limit_of(token), amount) {
            Ok(next) => r is Ok && final(s).count_of(token) == next,
            Err(e) => r == Err::<(), ComplianceModuleError>(e) && *final(s) == *old(s),
        },
        only_count_changed(old(s), final(s), token),
{
    match require_non_negative_amount(amount) {
        Err(e) => {
            return Err(e);
        },
        Ok(()) => {},
    }
    let next = match add_i128_or_panic(get_supply_count(s, token), amount) {
        Ok(v) => v,
        Err(e) => {
            return Err(e);
        },
    };
    if next > get_supply_limit(s, token) {
        return Err(ComplianceModuleError::SupplyLimitExceeded);
    }
    set_supply_count(s, token, next);
    Ok(())
}

/// Records a burn of `amount` on `token`: the counter shrinks by `amount`.
///
/// # Errors
///
/// * [`ComplianceModuleError::InvalidAmount`] - When `amount` is negative.
/// * [`ComplianceModuleError::MathUnderflow`] - When the counter would turn
///   negative.
pub fn on_destroyed(s: &mut SupplyLimits, from: Address, amount: i128, token: Address) -> (r: Result<
    (),
    ComplianceModuleError,
>)
    ensures
        match burn_outcome(old(s).count_of(token), amount) {
            Ok(next) => r is Ok && final(s).count_of(token) == next,
            Err(e) => r == Err::<(), ComplianceModuleError>(e) && *final(s) == *old(s),
        },
        only_count_changed(old(s), final(s), token),
{
    match require_non_negative_amount(amount) {
        Err(e) => {
            return Err(e);
        },
        Ok(()) => {},
    }
    let next = match sub_i128_or_panic(get_supply_count(s, token), amount) {
        Ok(v) => v,
        Err(e) => {
            return Err(e);
        },
    };
    if next < 0 {
        return Err(ComplianceModuleError::MathUnderflow);
    }
    set_supply_count(s, token, next);
    Ok(())
}

/// A mint that goes through never leaves the counter above the cap.
pub proof fn lemma_mint_respects_cap(count: i128, limit: i128, amount: i128)
    ensures
        mint_outcome(count, limit, amount) matches Ok(next) ==> next <= limit,
{
}

/// A counter that is not negative stays not negative through any mint or
/// burn that goes through.
pub proof fn lemma_count_stays_non_negative(count: i128, limit: i128, amount: i128)
    requires
        count >= 0,
    ensures
        mint_outcome(count, limit, amount) matches Ok(next) ==> next >= 0,
        burn_outcome(count, amount) matches Ok(next) ==> next >= 0,
{
}

/// Burning what a mint added brings a non-negative counter back to where
/// it was.
pub proof fn lemma_burn_undoes_mint(count: i128, limit: i128, amount: i128)
    requires
        count >= 0,
    ensures
        mint_outcome(count, limit, amount) matches Ok(next) ==> burn_outcome(next, amount) == Ok::<
            i128,
            ComplianceModuleError,
        >(count),
{
}

/// A mint that keeps the counter within the cap goes through and adds
/// exactly the amount; a burn of no more than the counter goes through and
/// takes exactly the amount away.
pub proof fn lemma_mint_and_burn_within_bounds_go_through(count: i128, limit: i128, amount: i128)
    requires
        amount >= 0,
    ensures
        count + amount <= limit ==> mint_outcome(count, limit, amount) == Ok::<i128, ComplianceModuleError>(
            (count + amount) as i128,
        ),
        amount <= count ==> burn_outcome(count, amount) == Ok::<i128, ComplianceModuleError>(
            (count - amount) as i128,
        ),
{
}

} // verus!
