//! Time-window transfer limits: per token, up to [`MAX_LIMITS`] windows,
//! each capping the volume that one identity may send within a window of a
//! given number of ledgers. Volume is tracked per identity, so the wallets
//! of one identity share their allowance. A window opens with the first
//! transfer after the previous one elapsed. Forced transfers are not
//! investor activity: they are neither checked nor counted.

use super::storage::{add_i128_or_panic, require_non_negative_amount, IRSRead};
use super::{ComplianceModuleError, HookError};
use crate::common::{pair, pair_key, Address, lemma_pair_injective};
use crate::compliance::TransferKind;
use std::collections::HashMap;
use std::vec::Vec;
use vstd::prelude::*;

verus! {

broadcast use vstd::std_specs::hash::group_hash_axioms;

/// The most windows that can be configured for one token.
pub const MAX_LIMITS: u32 = 8;

/// One time window: at most `limit_value` tokens may be sent within
/// `limit_duration` ledgers.
#[derive(Clone, Copy, Debug, PartialEq, Eq, Structural)]
pub struct TransferLimit {
    pub limit_duration: u32,
    pub limit_value: i128,
}

/// The volume one identity has sent in its current window of a given
/// duration: `value` accumulates until the ledger sequence reaches
/// `deadline`, after which the next transfer opens a fresh window.
#[derive(Clone, Copy, Debug, PartialEq, Eq, Structural)]
pub struct TransferCounter {
    pub value: i128,
    pub deadline: u32,
}

/// The module's state: the windows configured per token, and per
/// `(token, identity)` the counters, keyed by window duration.
pub struct TimeTransfersLimits {
    limits: HashMap<Address, Vec<TransferLimit>>,
    counters: HashMap<u128, HashMap<u32, TransferCounter>>,
}

/// The counter of an identity that never sent anything in a window.
pub open spec fn zero_counter() -> TransferCounter {
    TransferCounter { value: 0, deadline: 0 }
}

/// The counter kept in `cs` for windows of `duration` ledgers.
pub open spec fn counter_in(cs: Map<u32, TransferCounter>, duration: u32) -> TransferCounter {
    if cs.contains_key(duration) {
        cs[duration]
    } else {
        zero_counter()
    }
}

/// No two windows of `ls` have the same duration.
pub open spec fn durations_distinct(ls: Seq<TransferLimit>) -> bool {
    forall|i: int, j: int|
        0 <= i < j < ls.len() ==> #[trigger] ls[i].limit_duration != #[trigger] ls[j].limit_duration
}

/// A valid window list: within the bound and without two windows of one
/// duration.
pub open spec fn limits_wf(ls: Seq<TransferLimit>) -> bool {
    ls.len() <= MAX_LIMITS && durations_distinct(ls)
}

impl TimeTransfersLimits {
    /// The windows configured for `token`, in order (none by default).
    pub closed spec fn limits_of(&self, token: Address) -> Seq<TransferLimit> {
        if self.limits@.contains_key(token) {
            self.limits@[token]@
        } else {
            Seq::empty()
        }
    }

    /// The counters of `identity` under `token`, keyed by window duration.
    pub closed spec fn counters_of(&self, token: Address, identity: Address) -> Map<
        u32,
        TransferCounter,
    > {
        if self.counters@.contains_key(pair(token, identity)) {
            self.counters@[pair(token, identity)]@
        } else {
            Map::empty()
        }
    }

    /// The counter of `identity` under `token` for windows of `duration`.
    pub open spec fn counter_of(&self, token: Address, identity: Address, duration: u32) -> TransferCounter {
        counter_in(self.counters_of(token, identity), duration)
    }

    /// Every token's window list is valid.
    pub open spec fn wf(&self) -> bool {
        forall|t: Address| #[trigger] limits_wf(self.limits_of(t))
    }

    /// No window and no counter anywhere.
    pub fn new() -> (s: Self)
        ensures
            s.wf(),
            forall|t: Address| #[trigger] s.limits_of(t) == Seq::<TransferLimit>::empty(),
            forall|t: Address, i: Address| #[trigger] s.counters_of(t, i) == Map::<u32, TransferCounter>::empty(),
    {
        TimeTransfersLimits { limits: HashMap::new(), counters: HashMap::new() }
    }
}

/// `s2` has the windows of `s1`, and its counters except those of
/// `identity` under `token`.
pub open spec fn counters_kept_except(
    s1: &TimeTransfersLimits,
    s2: &TimeTransfersLimits,
    token: Address,
    identity: Address,
) -> bool {
    &&& forall|t: Address| #[trigger] s2.limits_of(t) == s1.limits_of(t)
    &&& forall|t: Address, i: Address|
        !(t == token && i == identity) ==> #[trigger] s2.counters_of(t, i) == s1.counters_of(t, i)
}

/// `s2` has the counters of `s1`, and its windows except those of `token`.
pub open spec fn limits_kept_except(s1: &TimeTransfersLimits, s2: &TimeTransfersLimits, token: Address) -> bool {
    &&& forall|t: Address| t != token ==> #[trigger] s2.limits_of(t) == s1.limits_of(t)
    &&& forall|t: Address, i: Address| #[trigger] s2.counters_of(t, i) == s1.counters_of(t, i)
}

/// `s2` keeps every window and counter of `s1`.
pub open spec fn books_kept(s1: &TimeTransfersLimits, s2: &TimeTransfersLimits) -> bool {
    &&& forall|t: Address| #[trigger] s2.limits_of(t) == s1.limits_of(t)
    &&& forall|t: Address, i: Address| #[trigger] s2.counters_of(t, i) == s1.counters_of(t, i)
}

/// The index of the first window of `ls` with duration `duration`, or `-1`
/// when there is none.
pub open spec fn position_of(ls: Seq<TransferLimit>, duration: u32) -> int {
    if exists|i: int| is_first_match(ls, duration, i) {
        choose|i: int| is_first_match(ls, duration, i)
    } else {
        -1
    }
}

/// `i` is the first index of `ls` whose window has duration `duration`.
pub open spec fn is_first_match(ls: Seq<TransferLimit>, duration: u32, i: int) -> bool {
    &&& 0 <= i < ls.len()
    &&& ls[i].limit_duration == duration
    &&& forall|j: int| 0 <= j < i ==> #[trigger] ls[j].limit_duration != duration
}

/// The window list after setting `limit`: a window of the same duration is
/// replaced in place, otherwise `limit` is appended within the bound.
pub open spec fn set_limit_result(ls: Seq<TransferLimit>, limit: TransferLimit) -> Result<
    Seq<TransferLimit>,
    ComplianceModuleError,
> {
    if limit.limit_value < 0 {
        Err(ComplianceModuleError::InvalidAmount)
    } else if position_of(ls, limit.limit_duration) >= 0 {
        Ok(ls.update(position_of(ls, limit.limit_duration), limit))
    } else if ls.len() >= MAX_LIMITS {
        Err(ComplianceModuleError::LimitBoundExceeded)
    } else {
        Ok(ls.push(limit))
    }
}

/// The window list after removing the window of duration `duration`.
pub open spec fn remove_limit_result(ls: Seq<TransferLimit>, duration: u32) -> Result<
    Seq<TransferLimit>,
    ComplianceModuleError,
> {
    if position_of(ls, duration) < 0 {
        Err(ComplianceModuleError::LimitNotFound)
    } else {
        Ok(ls.remove(position_of(ls, duration)))
    }
}

/// The window list after setting each of `news` in order, or the first
/// error.
pub open spec fn set_all(ls: Seq<TransferLimit>, news: Seq<TransferLimit>) -> Result<
    Seq<TransferLimit>,
    ComplianceModuleError,
>
    decreases news.len(),
{
    if news.len() == 0 {
        Ok(ls)
    } else {
        match set_all(ls, news.drop_last()) {
            Err(e) => Err(e),
            Ok(m) => set_limit_result(m, news.last()),
        }
    }
}

/// The window list after removing each duration of `ds` in order, or the
/// first error.
pub open spec fn remove_all(ls: Seq<TransferLimit>, ds: Seq<u32>) -> Result<
    Seq<TransferLimit>,
    ComplianceModuleError,
>
    decreases ds.len(),
{
    if ds.len() == 0 {
        Ok(ls)
    } else {
        match remove_all(ls, ds.drop_last()) {
            Err(e) => Err(e),
            Ok(m) => remove_limit_result(m, ds.last()),
        }
    }
}

/// `now + duration`, saturating at the largest ledger sequence.
pub open spec fn window_end(now: u32, duration: u32) -> u32 {
    if now + duration > u32::MAX {
        u32::MAX
    } else {
        (now + duration) as u32
    }
}

/// The counter after a transfer of `amount` at ledger `now` under window
/// `limit`: an elapsed window restarts first; the error refuses the
/// transfer.
pub open spec fn advance(c: TransferCounter, limit: TransferLimit, now: u32, amount: i128) -> Result<
    TransferCounter,
    ComplianceModuleError,
> {
    let base = if c.deadline <= now {
        TransferCounter { value: 0, deadline: window_end(now, limit.limit_duration) }
    } else {
        c
    };
    if !(i128::MIN <= base.value + amount <= i128::MAX) {
        Err(ComplianceModuleError::MathOverflow)
    } else if base.value + amount > limit.limit_value {
        Err(ComplianceModuleError::TransferLimitExceeded)
    } else {
        Ok(TransferCounter { value: (base.value + amount) as i128, deadline: base.deadline })
    }
}

/// The first error, window by window, of recording a transfer of `amount`
/// at `now` on the counters `cs`.
pub open spec fn record_error(cs: Map<u32, TransferCounter>, ls: Seq<TransferLimit>, now: u32, amount: i128) -> Option<
    ComplianceModuleError,
>
    decreases ls.len(),
{
    if ls.len() == 0 {
        None
    } else {
        match record_error(cs, ls.drop_last(), now, amount) {
            Some(e) => Some(e),
            None => match advance(counter_in(cs, ls.last().limit_duration), ls.last(), now, amount) {
                Err(e) => Some(e),
                Ok(_) => None,
            },
        }
    }
}

/// The counters after recording a transfer of `amount` at `now` on `cs`
/// against every window of `ls`.
pub open spec fn recorded(cs: Map<u32, TransferCounter>, ls: Seq<TransferLimit>, now: u32, amount: i128) -> Map<
    u32,
    TransferCounter,
>
    decreases ls.len(),
{
    if ls.len() == 0 {
        cs
    } else {
        let m = recorded(cs, ls.drop_last(), now, amount);
        match advance(counter_in(cs, ls.last().limit_duration), ls.last(), now, amount) {
            Ok(c) => m.insert(ls.last().limit_duration, c),
            Err(_) => m,
        }
    }
}

/// What a transfer of `amount` from `from` at ledger `now` does: an error,
/// nothing (`None`), or the new counters of the sender identity.
pub open spec fn transfer_outcome<R: IRSRead>(
    s: &TimeTransfersLimits,
    irs: Option<&R>,
    from: Address,
    amount: i128,
    kind: TransferKind,
    token: Address,
    now: u32,
) -> Result<Option<(Address, Map<u32, TransferCounter>)>, HookError> {
    if amount < 0 {
        Err(HookError::Module(ComplianceModuleError::InvalidAmount))
    } else if kind == TransferKind::Forced || s.limits_of(token).len() == 0 {
        Ok(None)
    } else {
        match irs {
            None => Err(HookError::Module(ComplianceModuleError::IdentityRegistryNotSet)),
            Some(reg) => match super::max_balance::resolve(reg, from) {
                Err(e) => Err(HookError::Registry(e)),
                Ok(id) => match record_error(s.counters_of(token, id), s.limits_of(token), now, amount) {
                    Some(e) => Err(HookError::Module(e)),
                    None => Ok(
                        Some((id, recorded(s.counters_of(token, id), s.limits_of(token), now, amount))),
                    ),
                },
            },
        }
    }
}

/// Whether one window lets a transfer of `amount` at `now` through, given
/// the counter `c`; the error comes from an overflowing sum.
pub open spec fn window_check(c: TransferCounter, limit: TransferLimit, now: u32, amount: i128) -> Result<
    bool,
    ComplianceModuleError,
> {
    if amount > limit.limit_value {
        Ok(false)
    } else if c.deadline > now {
        if !(i128::MIN <= c.value + amount <= i128::MAX) {
            Err(ComplianceModuleError::MathOverflow)
        } else {
            Ok(c.value + amount <= limit.limit_value)
        }
    } else {
        Ok(true)
    }
}

/// Whether every window of `ls` lets the transfer through, checked in
/// order up to the first refusal or error.
pub open spec fn windows_check(cs: Map<u32, TransferCounter>, ls: Seq<TransferLimit>, now: u32, amount: i128) -> Result<
    bool,
    ComplianceModuleError,
>
    decreases ls.len(),
{
    if ls.len() == 0 {
        Ok(true)
    } else {
        match windows_check(cs, ls.drop_last(), now, amount) {
            Ok(true) => window_check(counter_in(cs, ls.last().limit_duration), ls.last(), now, amount),
            other => other,
        }
    }
}

/// The answer of the transfer check for `amount` from `from` at `now`.
pub open spec fn check_outcome<R: IRSRead>(
    s: &TimeTransfersLimits,
    irs: Option<&R>,
    from: Address,
    amount: i128,
    token: Address,
    now: u32,
) -> Result<bool, HookError> {
    if amount < 0 {
        Err(HookError::Module(ComplianceModuleError::InvalidAmount))
    } else if s.limits_of(token).len() == 0 {
        Ok(true)
    } else {
        match irs {
            None => Err(HookError::Module(ComplianceModuleError::IdentityRegistryNotSet)),
            Some(reg) => match super::max_balance::resolve(reg, from) {
                Err(e) => Err(HookError::Registry(e)),
                Ok(id) => match windows_check(s.counters_of(token, id), s.limits_of(token), now, amount) {
                    Ok(b) => Ok(b),
                    Err(e) => Err(HookError::Module(e)),
                },
            },
        }
    }
}

// ---------------------------------------------------------------------------
// Lemmas on the recursive specifications.

/// A matching window has a first matching window.
proof fn lemma_first_match_exists(ls: Seq<TransferLimit>, duration: u32, i: int)
    requires
        0 <= i < ls.len(),
        ls[i].limit_duration == duration,
    ensures
        exists|k: int| is_first_match(ls, duration, k),
    decreases i,
{
    if exists|j: int| 0 <= j < i && #[trigger] ls[j].limit_duration == duration {
        let j = choose|j: int| 0 <= j < i && #[trigger] ls[j].limit_duration == duration;
        lemma_first_match_exists(ls, duration, j);
    } else {
        assert(is_first_match(ls, duration, i));
    }
}

/// `position_of` is the first matching index, or `-1` exactly when no
/// window matches.
proof fn lemma_position(ls: Seq<TransferLimit>, duration: u32)
    ensures
        position_of(ls, duration) == -1 <==> forall|j: int|
            0 <= j < ls.len() ==> #[trigger] ls[j].limit_duration != duration,
        position_of(ls, duration) != -1 ==> is_first_match(ls, duration, position_of(ls, duration)),
        forall|i: int| is_first_match(ls, duration, i) ==> position_of(ls, duration) == i,
{
    if exists|j: int| 0 <= j < ls.len() && #[trigger] ls[j].limit_duration == duration {
        let j = choose|j: int| 0 <= j < ls.len() && #[trigger] ls[j].limit_duration == duration;
        lemma_first_match_exists(ls, duration, j);
    }
    assert forall|i: int| is_first_match(ls, duration, i) implies position_of(ls, duration) == i by {
        let p = position_of(ls, duration);
        assert(is_first_match(ls, duration, p));
        if p < i {
            assert(ls[p].limit_duration != duration);
        }
        if p > i {
            assert(ls[i].limit_duration != duration);
        }
    }
}

/// Setting a window keeps a valid list valid.
proof fn lemma_set_keeps_wf(ls: Seq<TransferLimit>, limit: TransferLimit)
    requires
        limits_wf(ls),
    ensures
        set_limit_result(ls, limit) matches Ok(n) ==> limits_wf(n),
{
    lemma_position(ls, limit.limit_duration);
    if let Ok(n) = set_limit_result(ls, limit) {
        let p = position_of(ls, limit.limit_duration);
        if p >= 0 {
            assert forall|i: int, j: int| 0 <= i < j < n.len() implies #[trigger] n[i].limit_duration
                != #[trigger] n[j].limit_duration by {
                if i != p && j != p {
                    assert(ls[i].limit_duration != ls[j].limit_duration);
                } else if i == p {
                    assert(ls[i].limit_duration != ls[j].limit_duration);
                } else {
                    assert(ls[i].limit_duration != ls[j].limit_duration);
                }
            }
        } else {
            assert forall|i: int, j: int| 0 <= i < j < n.len() implies #[trigger] n[i].limit_duration
                != #[trigger] n[j].limit_duration by {
                if j < ls.len() {
                    assert(ls[i].limit_duration != ls[j].limit_duration);
                } else {
                    assert(ls[i].limit_duration != limit.limit_duration);
                }
            }
        }
    }
}

/// Removing a window keeps a valid list valid.
proof fn lemma_remove_keeps_wf(ls: Seq<TransferLimit>, duration: u32)
    requires
        limits_wf(ls),
    ensures
        remove_limit_result(ls, duration) matches Ok(n) ==> limits_wf(n),
{
    lemma_position(ls, duration);
    if let Ok(n) = remove_limit_result(ls, duration) {
        let p = position_of(ls, duration);
        assert forall|i: int, j: int| 0 <= i < j < n.len() implies #[trigger] n[i].limit_duration
            != #[trigger] n[j].limit_duration by {
            let ii = if i < p { i } else { i + 1 };
            let jj = if j < p { j } else { j + 1 };
            assert(n[i] == ls[ii]);
            assert(n[j] == ls[jj]);
            assert(ls[ii].limit_duration != ls[jj].limit_duration);
        }
    }
}

/// Setting a sequence of windows keeps a valid list valid.
proof fn lemma_set_all_keeps_wf(ls: Seq<TransferLimit>, news: Seq<TransferLimit>)
    requires
        limits_wf(ls),
    ensures
        set_all(ls, news) matches Ok(n) ==> limits_wf(n),
    decreases news.len(),
{
    if news.len() > 0 {
        lemma_set_all_keeps_wf(ls, news.drop_last());
        if let Ok(m) = set_all(ls, news.drop_last()) {
            lemma_set_keeps_wf(m, news.last());
        }
    }
}

/// Removing a sequence of windows keeps a valid list valid.
proof fn lemma_remove_all_keeps_wf(ls: Seq<TransferLimit>, ds: Seq<u32>)
    requires
        limits_wf(ls),
    ensures
        remove_all(ls, ds) matches Ok(n) ==> limits_wf(n),
    decreases ds.len(),
{
    if ds.len() > 0 {
        lemma_remove_all_keeps_wf(ls, ds.drop_last());
        if let Ok(m) = remove_all(ls, ds.drop_last()) {
            lemma_remove_keeps_wf(m, ds.last());
        }
    }
}

/// Once a prefix of the windows fails, the whole list fails the same way.
proof fn lemma_record_error_persists(
    cs: Map<u32, TransferCounter>,
    ls: Seq<TransferLimit>,
    k: int,
    now: u32,
    amount: i128,
)
    requires
        0 <= k <= ls.len(),
        record_error(cs, ls.take(k), now, amount) is Some,
    ensures
        record_error(cs, ls, now, amount) == record_error(cs, ls.take(k), now, amount),
    decreases ls.len() - k,
{
    if k < ls.len() {
        assert(ls.drop_last().take(k) =~= ls.take(k));
        lemma_record_error_persists(cs, ls.drop_last(), k, now, amount);
    } else {
        assert(ls.take(k) =~= ls);
    }
}

/// When no window fails, every single window accepts the transfer.
proof fn lemma_record_ok_each(cs: Map<u32, TransferCounter>, ls: Seq<TransferLimit>, now: u32, amount: i128)
    requires
        record_error(cs, ls, now, amount) is None,
    ensures
        forall|j: int|
            0 <= j < ls.len() ==> #[trigger] advance(
                counter_in(cs, ls[j].limit_duration),
                ls[j],
                now,
                amount,
            ) is Ok,
    decreases ls.len(),
{
    if ls.len() > 0 {
        lemma_record_ok_each(cs, ls.drop_last(), now, amount);
        assert forall|j: int| 0 <= j < ls.len() implies #[trigger] advance(
            counter_in(cs, ls[j].limit_duration),
            ls[j],
            now,
            amount,
        ) is Ok by {
            if j < ls.len() - 1 {
                assert(ls.drop_last()[j] == ls[j]);
            }
        }
    }
}

/// Recording only touches the counters of the windows recorded.
proof fn lemma_recorded_keeps_others(
    cs: Map<u32, TransferCounter>,
    ls: Seq<TransferLimit>,
    now: u32,
    amount: i128,
    d: u32,
)
    requires
        forall|j: int| 0 <= j < ls.len() ==> #[trigger] ls[j].limit_duration != d,
    ensures
        counter_in(recorded(cs, ls, now, amount), d) == counter_in(cs, d),
        recorded(cs, ls, now, amount).contains_key(d) == cs.contains_key(d),
    decreases ls.len(),
{
    if ls.len() > 0 {
        assert forall|j: int| 0 <= j < ls.drop_last().len() implies #[trigger] ls.drop_last()[j].limit_duration
            != d by {
            assert(ls.drop_last()[j] == ls[j]);
        }
        lemma_recorded_keeps_others(cs, ls.drop_last(), now, amount, d);
        assert(ls.last() == ls[ls.len() - 1]);
    }
}

/// Once a prefix of the windows refuses or errs, the whole check gives
/// that answer.
proof fn lemma_windows_check_persists(
    cs: Map<u32, TransferCounter>,
    ls: Seq<TransferLimit>,
    k: int,
    now: u32,
    amount: i128,
)
    requires
        0 <= k <= ls.len(),
        windows_check(cs, ls.take(k), now, amount) != Ok::<bool, ComplianceModuleError>(true),
    ensures
        windows_check(cs, ls, now, amount) == windows_check(cs, ls.take(k), now, amount),
    decreases ls.len() - k,
{
    if k < ls.len() {
        assert(ls.drop_last().take(k) =~= ls.take(k));
        lemma_windows_check_persists(cs, ls.drop_last(), k, now, amount);
    } else {
        assert(ls.take(k) =~= ls);
    }
}

// ---------------------------------------------------------------------------
// Executable operations.

/// Copies a window list.
fn copy_limits(v: &Vec<TransferLimit>) -> (r: Vec<TransferLimit>)
    ensures
        r@ == v@,
{
    let mut r: Vec<TransferLimit> = Vec::new();
    let mut i: usize = 0;
    while i < v.len()
        invariant
            i <= v.len(),
            r@ == v@.take(i as int),
        decreases v.len() - i,
    {
        r.push(v[i]);
        proof {
            assert(v@.take(i + 1) =~= v@.take(i as int).push(v@[i as int]));
        }
        i = i + 1;
    }
    proof {
        assert(v@.take(v@.len() as int) =~= v@);
    }
    r
}

/// Returns the windows configured for `token`, in order.
pub fn get_time_transfer_limits(s: &TimeTransfersLimits, token: Address) -> (r: Vec<TransferLimit>)
    ensures
        r@ == s.limits_of(token),
{
    match s.limits.get(&token) {
        Some(v) => copy_limits(v),
        None => Vec::new(),
    }
}

/// Returns the counter of `identity` under `token` for windows of
/// `limit_duration` ledgers (zeroed when none was recorded).
pub fn get_transfer_counter(s: &TimeTransfersLimits, token: Address, identity: Address, limit_duration: u32) -> (r:
    TransferCounter)
    ensures
        r == s.counter_of(token, identity, limit_duration),
{
    match s.counters.get(&pair_key(token, identity)) {
        Some(m) => match m.get(&limit_duration) {
            Some(c) => *c,
            None => TransferCounter { value: 0, deadline: 0 },
        },
        None => TransferCounter { value: 0, deadline: 0 },
    }
}

/// Finds the first window of `ls` with duration `duration`.
fn find_duration(ls: &Vec<TransferLimit>, duration: u32) -> (r: Option<usize>)
    ensures
        match r {
            Some(i) => i == position_of(ls@, duration),
            None => position_of(ls@, duration) == -1,
        },
{
    let mut i: usize = 0;
    while i < ls.len()
        invariant
            i <= ls.len(),
            forall|j: int| 0 <= j < i ==> #[trigger] ls@[j].limit_duration != duration,
        decreases ls.len() - i,
    {
        if ls[i].limit_duration == duration {
            proof {
                assert(is_first_match(ls@, duration, i as int));
                lemma_position(ls@, duration);
            }
            return Some(i);
        }
        i = i + 1;
    }
    proof {
        lemma_position(ls@, duration);
    }
    None
}

/// Sets `limit` in the window list `ls`.
fn set_in(ls: &mut Vec<TransferLimit>, limit: TransferLimit) -> (r: Result<(), ComplianceModuleError>)
    ensures
        match set_limit_result(old(ls)@, limit) {
            Ok(n) => r is Ok && final(ls)@ == n,
            Err(e) => r == Err::<(), ComplianceModuleError>(e) && final(ls)@ == old(ls)@,
        },
{
    match require_non_negative_amount(limit.limit_value) {
        Err(e) => {
            return Err(e);
        },
        Ok(()) => {},
    }
    match find_duration(ls, limit.limit_duration) {
        Some(i) => {
            ls.set(i, limit);
            Ok(())
        },
        None => {
            if ls.len() >= MAX_LIMITS as usize {
                Err(ComplianceModuleError::LimitBoundExceeded)
            } else {
                ls.push(limit);
                Ok(())
            }
        },
    }
}

/// Removes the window of duration `duration` from `ls`.
fn remove_in(ls: &mut Vec<TransferLimit>, duration: u32) -> (r: Result<(), ComplianceModuleError>)
    ensures
        match remove_limit_result(old(ls)@, duration) {
            Ok(n) => r is Ok && final(ls)@ == n,
            Err(e) => r == Err::<(), ComplianceModuleError>(e) && final(ls)@ == old(ls)@,
        },
{
    match find_duration(ls, duration) {
        Some(i) => {
            ls.remove(i);
            Ok(())
        },
        None => Err(ComplianceModuleError::LimitNotFound),
    }
}

/// Sets a window for `token`: a window of the same duration is replaced in
/// place, otherwise the new one is appended.
///
/// # Errors
///
/// * [`ComplianceModuleError::InvalidAmount`] - When `limit.limit_value` is
///   negative.
/// * [`ComplianceModuleError::LimitBoundExceeded`] - When appending would
///   exceed [`MAX_LIMITS`].
pub fn set_time_transfer_limit(s: &mut TimeTransfersLimits, token: Address, limit: TransferLimit) -> (r:
    Result<(), ComplianceModuleError>)
    ensures
        match set_limit_result(old(s).limits_of(token), limit) {
            Ok(n) => r is Ok && final(s).limits_of(token) == n,
            Err(e) => r == Err::<(), ComplianceModuleError>(e) && *final(s) == *old(s),
        },
        limits_kept_except(old(s), final(s), token),
        old(s).wf() ==> final(s).wf(),
{
    let mut ls = get_time_transfer_limits(s, token);
    let r = set_in(&mut ls, limit);
    if r.is_ok() {
        s.limits.insert(token, ls);
    }
    proof {
        if old(s).wf() {
            assert(limits_wf(old(s).limits_of(token)));
            lemma_set_keeps_wf(old(s).limits_of(token), limit);
            assert forall|t: Address| #[trigger] limits_wf(final(s).limits_of(t)) by {
                if t != token {
                    assert(limits_wf(old(s).limits_of(t)));
                }
            }
        }
    }
    r
}

/// Once a prefix of the settings fails, setting the whole sequence fails
/// the same way.
proof fn lemma_set_all_error_persists(ls: Seq<TransferLimit>, news: Seq<TransferLimit>, k: int)
    requires
        0 <= k <= news.len(),
        set_all(ls, news.take(k)) is Err,
    ensures
        set_all(ls, news) == set_all(ls, news.take(k)),
    decreases news.len() - k,
{
    if k < news.len() {
        assert(news.drop_last().take(k) =~= news.take(k));
        lemma_set_all_error_persists(ls, news.drop_last(), k);
    } else {
        assert(news.take(k) =~= news);
    }
}

/// Once a prefix of the removals fails, removing the whole sequence fails
/// the same way.
proof fn lemma_remove_all_error_persists(ls: Seq<TransferLimit>, ds: Seq<u32>, k: int)
    requires
        0 <= k <= ds.len(),
        remove_all(ls, ds.take(k)) is Err,
    ensures
        remove_all(ls, ds) == remove_all(ls, ds.take(k)),
    decreases ds.len() - k,
{
    if k < ds.len() {
        assert(ds.drop_last().take(k) =~= ds.take(k));
        lemma_remove_all_error_persists(ls, ds.drop_last(), k);
    } else {
        assert(ds.take(k) =~= ds);
    }
}

/// Sets each window of `limits` for `token` in order; either all are set
/// or, on the first error, none is.
///
/// # Errors
///
/// * see [`set_time_transfer_limit`].
#[verifier::loop_isolation(false)]
pub fn batch_set_time_transfer_limit(s: &mut TimeTransfersLimits, token: Address, limits: &Vec<TransferLimit>) -> (r:
    Result<(), ComplianceModuleError>)
    ensures
        match set_all(old(s).limits_of(token), limits@) {
            Ok(n) => r is Ok && final(s).limits_of(token) == n,
            Err(e) => r == Err::<(), ComplianceModuleError>(e) && *final(s) == *old(s),
        },
        limits_kept_except(old(s), final(s), token),
        old(s).wf() ==> final(s).wf(),
{
    let ghost orig = s.limits_of(token);
    let mut ls = get_time_transfer_limits(s, token);
    let mut i: usize = 0;
    while i < limits.len()
        invariant
            i <= limits.len(),
            set_all(orig, limits@.take(i as int)) == Ok::<Seq<TransferLimit>, ComplianceModuleError>(
                ls@,
            ),
        decreases limits.len() - i,
    {
        proof {
            assert(limits@.take(i + 1).drop_last() =~= limits@.take(i as int));
            assert(limits@.take(i + 1).last() == limits@[i as int]);
        }
        match set_in(&mut ls, limits[i]) {
            Ok(()) => {},
            Err(e) => {
                proof {
                    assert(set_all(orig, limits@.take(i + 1)) == Err::<
                        Seq<TransferLimit>,
                        ComplianceModuleError,
                    >(e));
                    lemma_set_all_error_persists(orig, limits@, i + 1);
                }
                return Err(e);
            },
        }
        i = i + 1;
    }
    proof {
        assert(limits@.take(limits@.len() as int) =~= limits@);
    }
    s.limits.insert(token, ls);
    proof {
        if old(s).wf() {
            assert(limits_wf(orig));
            lemma_set_all_keeps_wf(orig, limits@);
            assert forall|t: Address| #[trigger] limits_wf(final(s).limits_of(t)) by {
                if t != token {
                    assert(limits_wf(old(s).limits_of(t)));
                }
            }
        }
    }
    Ok(())
}

/// Removes the window of duration `limit_duration` for `token`. Counters
/// recorded for that window are kept: configuring the same duration again
/// resumes an unexpired counter.
///
/// # Errors
///
/// * [`ComplianceModuleError::LimitNotFound`] - When `token` has no window of
///   that duration.
pub fn remove_time_transfer_limit(s: &mut TimeTransfersLimits, token: Address, limit_duration: u32) -> (r:
    Result<(), ComplianceModuleError>)
    ensures
        match remove_limit_result(old(s).limits_of(token), limit_duration) {
            Ok(n) => r is Ok && final(s).limits_of(token) == n,
            Err(e) => r == Err::<(), ComplianceModuleError>(e) && *final(s) == *old(s),
        },
        limits_kept_except(old(s), final(s), token),
        old(s).wf() ==> final(s).wf(),
{
    let mut ls = get_time_transfer_limits(s, token);
    let r = remove_in(&mut ls, limit_duration);
    if r.is_ok() {
        s.limits.insert(token, ls);
    }
    proof {
        if old(s).wf() {
            assert(limits_wf(old(s).limits_of(token)));
            lemma_remove_keeps_wf(old(s).limits_of(token), limit_duration);
            assert forall|t: Address| #[trigger] limits_wf(final(s).limits_of(t)) by {
                if t != token {
                    assert(limits_wf(old(s).limits_of(t)));
                }
            }
        }
    }
    r
}

/// Removes each window duration of `limit_durations` for `token` in order;
/// either all are removed or, on the first error, none is.
///
/// # Errors
///
/// * see [`remove_time_transfer_limit`].
#[verifier::loop_isolation(false)]
pub fn batch_remove_time_transfer_limit(s: &mut TimeTransfersLimits, token: Address, limit_durations: &Vec<u32>) -> (r:
    Result<(), ComplianceModuleError>)
    ensures
        match remove_all(old(s).limits_of(token), limit_durations@) {
            Ok(n) => r is Ok && final(s).limits_of(token) == n,
            Err(e) => r == Err::<(), ComplianceModuleError>(e) && *final(s) == *old(s),
        },
        limits_kept_except(old(s), final(s), token),
        old(s).wf() ==> final(s).wf(),
{
    let ghost orig = s.limits_of(token);
    let mut ls = get_time_transfer_limits(s, token);
    let mut i: usize = 0;
    while i < limit_durations.len()
        invariant
            i <= limit_durations.len(),
            remove_all(orig, limit_durations@.take(i as int)) == Ok::<
                Seq<TransferLimit>,
                ComplianceModuleError,
            >(ls@),
        decreases limit_durations.len() - i,
    {
        proof {
            assert(limit_durations@.take(i + 1).drop_last() =~= limit_durations@.take(i as int));
            assert(limit_durations@.take(i + 1).last() == limit_durations@[i as int]);
        }
        match remove_in(&mut ls, limit_durations[i]) {
            Ok(()) => {},
            Err(e) => {
                proof {
                    assert(remove_all(orig, limit_durations@.take(i + 1)) == Err::<
                        Seq<TransferLimit>,
                        ComplianceModuleError,
                    >(e));
                    lemma_remove_all_error_persists(orig, limit_durations@, i + 1);
                }
                return Err(e);
            },
        }
        i = i + 1;
    }
    proof {
        assert(limit_durations@.take(limit_durations@.len() as int) =~= limit_durations@);
    }
    s.limits.insert(token, ls);
    proof {
        if old(s).wf() {
            assert(limits_wf(orig));
            lemma_remove_all_keeps_wf(orig, limit_durations@);
            assert forall|t: Address| #[trigger] limits_wf(final(s).limits_of(t)) by {
                if t != token {
                    assert(limits_wf(old(s).limits_of(t)));
                }
            }
        }
    }
    Ok(())
}

/// Computes [`advance`].
fn advance_counter(c: TransferCounter, limit: TransferLimit, now: u32, amount: i128) -> (r: Result<
    TransferCounter,
    ComplianceModuleError,
>)
    ensures
        r == advance(c, limit, now, amount),
{
    let base = if c.deadline <= now {
        TransferCounter { value: 0, deadline: now.saturating_add(limit.limit_duration) }
    } else {
        c
    };
    let v = match add_i128_or_panic(base.value, amount) {
        Ok(v) => v,
        Err(e) => {
            return Err(e);
        },
    };
    if v > limit.limit_value {
        return Err(ComplianceModuleError::TransferLimitExceeded);
    }
    Ok(TransferCounter { value: v, deadline: base.deadline })
}

/// Computes [`window_check`].
fn check_window(c: TransferCounter, limit: TransferLimit, now: u32, amount: i128) -> (r: Result<
    bool,
    ComplianceModuleError,
>)
    ensures
        r == window_check(c, limit, now, amount),
{
    if amount > limit.limit_value {
        return Ok(false);
    }
    if c.deadline > now {
        match add_i128_or_panic(c.value, amount) {
            Ok(v) => Ok(v <= limit.limit_value),
            Err(e) => Err(e),
        }
    } else {
        Ok(true)
    }
}

/// Records a transfer of `amount` from `from` at ledger `now` against every
/// window of `token`: the sender's identity is resolved, each elapsed
/// window restarts, and each counter grows by `amount`. Either every
/// counter is updated or, when one would exceed its window's cap, none is.
/// Forced transfers, and tokens without windows, are left alone.
///
/// # Errors
///
/// * [`ComplianceModuleError::InvalidAmount`] - When `amount` is negative.
/// * [`ComplianceModuleError::IdentityRegistryNotSet`] - When windows are
///   configured but no registry is (`irs` is `None`).
/// * the registry's error when `from` cannot be resolved.
/// * [`ComplianceModuleError::MathOverflow`] - When a counter addition
///   overflows.
/// * [`ComplianceModuleError::TransferLimitExceeded`] - When a counter would
///   exceed its window's cap.
#[verifier::loop_isolation(false)]
pub fn on_transfer<R: IRSRead>(
    s: &mut TimeTransfersLimits,
    from: Address,
    to: Address,
    amount: i128,
    kind: TransferKind,
    token: Address,
    irs: Option<&R>,
    now: u32,
) -> (r: Result<(), HookError>)
    requires
        old(s).wf(),
    ensures
        match transfer_outcome(old(s), irs, from, amount, kind, token, now) {
            Err(e) => r == Err::<(), HookError>(e) && *final(s) == *old(s),
            Ok(None) => r is Ok && *final(s) == *old(s),
            Ok(Some((id, m))) => {
                &&& r is Ok
                &&& final(s).counters_of(token, id) == m
                &&& counters_kept_except(old(s), final(s), token, id)
            },
        },
        final(s).wf(),
{
    if amount < 0 {
        return Err(HookError::Module(ComplianceModuleError::InvalidAmount));
    }
    if kind == TransferKind::Forced {
        return Ok(());
    }
    let ls = get_time_transfer_limits(s, token);
    if ls.len() == 0 {
        return Ok(());
    }
    let reg = match irs {
        Some(reg) => reg,
        None => {
            return Err(HookError::Module(ComplianceModuleError::IdentityRegistryNotSet));
        },
    };
    let id = match reg.stored_identity(from) {
        Ok(i) => i,
        Err(e) => {
            return Err(HookError::Registry(e));
        },
    };
    let ghost cs = s.counters_of(token, id);
    proof {
        assert(limits_wf(s.limits_of(token)));
    }
    let mut j: usize = 0;
    while j < ls.len()
        invariant
            j <= ls.len(),
            record_error(cs, ls@.take(j as int), now, amount) is None,
        decreases ls.len() - j,
    {
        proof {
            assert(ls@.take(j + 1).drop_last() =~= ls@.take(j as int));
            assert(ls@.take(j + 1).last() == ls@[j as int]);
        }
        let c = get_transfer_counter(s, token, id, ls[j].limit_duration);
        match advance_counter(c, ls[j], now, amount) {
            Ok(_) => {},
            Err(e) => {
                proof {
                    lemma_record_error_persists(cs, ls@, j + 1, now, amount);
                }
                return Err(HookError::Module(e));
            },
        }
        j = j + 1;
    }
    proof {
        assert(ls@.take(ls@.len() as int) =~= ls@);
        lemma_record_ok_each(cs, ls@, now, amount);
    }
    let k = pair_key(token, id);
    let mut inner: HashMap<u32, TransferCounter> = match s.counters.remove(&k) {
        Some(m) => m,
        None => HashMap::new(),
    };
    let mut j: usize = 0;
    while j < ls.len()
        invariant
            j <= ls.len(),
            inner@ == recorded(cs, ls@.take(j as int), now, amount),
        decreases ls.len() - j,
    {
        let l = ls[j];
        proof {
            assert(ls@.take(j + 1).drop_last() =~= ls@.take(j as int));
            assert(ls@.take(j + 1).last() == l);
            assert forall|q: int| 0 <= q < ls@.take(j as int).len() implies #[trigger] ls@.take(
                j as int,
            )[q].limit_duration != l.limit_duration by {
                assert(ls@[q].limit_duration != ls@[j as int].limit_duration);
            }
            lemma_recorded_keeps_others(cs, ls@.take(j as int), now, amount, l.limit_duration);
        }
        let c = match inner.get(&l.limit_duration) {
            Some(c) => *c,
            None => TransferCounter { value: 0, deadline: 0 },
        };
        let c2 = match advance_counter(c, l, now, amount) {
            Ok(c2) => c2,
            Err(e) => {
                return Err(HookError::Module(e));
            },
        };
        inner.insert(l.limit_duration, c2);
        j = j + 1;
    }
    proof {
        assert(ls@.take(ls@.len() as int) =~= ls@);
    }
    s.counters.insert(k, inner);
    proof {
        assert forall|t: Address, i: Address| !(t == token && i == id) implies #[trigger] final(s).counters_of(t, i)
            == old(s).counters_of(t, i) by {
            lemma_pair_injective(t, i, token, id);
        }
        assert forall|t: Address| #[trigger] limits_wf(final(s).limits_of(t)) by {
            assert(limits_wf(old(s).limits_of(t)));
        }
    }
    Ok(())
}

/// Returns whether a transfer of `amount` from `from` at ledger `now` fits
/// every window of `token`: the amount alone must not exceed a window's
/// cap, and within an unexpired window the counter plus `amount` must stay
/// within it. Only the sender is consulted.
///
/// # Errors
///
/// * [`ComplianceModuleError::InvalidAmount`] - When `amount` is negative.
/// * [`ComplianceModuleError::IdentityRegistryNotSet`] - When windows are
///   configured but no registry is (`irs` is `None`).
/// * the registry's error when `from` cannot be resolved.
/// * [`ComplianceModuleError::MathOverflow`] - When a counter addition
///   overflows.
#[verifier::loop_isolation(false)]
pub fn can_transfer<R: IRSRead>(
    s: &TimeTransfersLimits,
    from: Address,
    to: Address,
    amount: i128,
    token: Address,
    irs: Option<&R>,
    now: u32,
) -> (r: Result<bool, HookError>)
    ensures
        r == check_outcome(s, irs, from, amount, token, now),
{
    if amount < 0 {
        return Err(HookError::Module(ComplianceModuleError::InvalidAmount));
    }
    let ls = get_time_transfer_limits(s, token);
    if ls.len() == 0 {
        return Ok(true);
    }
    let reg = match irs {
        Some(reg) => reg,
        None => {
            return Err(HookError::Module(ComplianceModuleError::IdentityRegistryNotSet));
        },
    };
    let id = match reg.stored_identity(from) {
        Ok(i) => i,
        Err(e) => {
            return Err(HookError::Registry(e));
        },
    };
    let ghost cs = s.counters_of(token, id);
    let mut j: usize = 0;
    while j < ls.len()
        invariant
            j <= ls.len(),
            windows_check(cs, ls@.take(j as int), now, amount) == Ok::<bool, ComplianceModuleError>(
                true,
            ),
        decreases ls.len() - j,
    {
        proof {
            assert(ls@.take(j + 1).drop_last() =~= ls@.take(j as int));
            assert(ls@.take(j + 1).last() == ls@[j as int]);
        }
        let c = get_transfer_counter(s, token, id, ls[j].limit_duration);
        match check_window(c, ls[j], now, amount) {
            Ok(true) => {},
            Ok(false) => {
                proof {
                    lemma_windows_check_persists(cs, ls@, j + 1, now, amount);
                }
                return Ok(false);
            },
            Err(e) => {
                proof {
                    lemma_windows_check_persists(cs, ls@, j + 1, now, amount);
                }
                return Err(HookError::Module(e));
            },
        }
        j = j + 1;
    }
    proof {
        assert(ls@.take(ls@.len() as int) =~= ls@);
    }
    Ok(true)
}

/// One window lets a transfer through exactly when recording it there goes
/// through, for a non-negative amount and counter.
proof fn lemma_window_agrees(c: TransferCounter, limit: TransferLimit, now: u32, amount: i128)
    requires
        amount >= 0,
        c.value >= 0,
    ensures
        window_check(c, limit, now, amount) == Ok::<bool, ComplianceModuleError>(true) <==> advance(
            c,
            limit,
            now,
            amount,
        ) is Ok,
{
}

/// The transfer check answers `true` exactly when recording the same
/// transfer on the same counters goes through (amounts and counters being
/// non-negative, as every recorded transfer keeps them).
pub proof fn lemma_check_agrees_with_record(
    cs: Map<u32, TransferCounter>,
    ls: Seq<TransferLimit>,
    now: u32,
    amount: i128,
)
    requires
        amount >= 0,
        forall|d: u32| cs.contains_key(d) ==> #[trigger] cs[d].value >= 0,
    ensures
        windows_check(cs, ls, now, amount) == Ok::<bool, ComplianceModuleError>(true) <==> record_error(
            cs,
            ls,
            now,
            amount,
        ) is None,
    decreases ls.len(),
{
    if ls.len() > 0 {
        lemma_check_agrees_with_record(cs, ls.drop_last(), now, amount);
        let d = ls.last().limit_duration;
        assert(counter_in(cs, d).value >= 0);
        lemma_window_agrees(counter_in(cs, d), ls.last(), now, amount);
    }
}

/// Whether window `limit`, whose counter is `c`, lets a transfer of
/// `amount` through at ledger `now`: the amount alone fits the cap, and,
/// while the window is still open, so does the counter plus the amount.
pub open spec fn window_allows(c: TransferCounter, limit: TransferLimit, now: u32, amount: i128) -> bool {
    amount <= limit.limit_value && !(c.deadline > now && c.value + amount > limit.limit_value)
}

/// Whether every window of `ls` lets the transfer through.
pub open spec fn all_windows_allow(cs: Map<u32, TransferCounter>, ls: Seq<TransferLimit>, now: u32, amount: i128) -> bool {
    forall|j: int|
        0 <= j < ls.len() ==> #[trigger] window_allows(counter_in(cs, ls[j].limit_duration), ls[j], now, amount)
}

/// Where no counter sum overflows, the transfer check answers whether
/// every window lets the transfer through, and recording the transfer is
/// refused with `TransferLimitExceeded` exactly when the check answers
/// `false` (amounts and counters being non-negative).
pub proof fn lemma_check_is_per_window(
    cs: Map<u32, TransferCounter>,
    ls: Seq<TransferLimit>,
    now: u32,
    amount: i128,
)
    requires
        amount >= 0,
        forall|d: u32| cs.contains_key(d) ==> #[trigger] cs[d].value >= 0,
        forall|j: int|
            0 <= j < ls.len() ==> #[trigger] counter_in(cs, ls[j].limit_duration).value + amount
                <= i128::MAX,
    ensures
        windows_check(cs, ls, now, amount) == Ok::<bool, ComplianceModuleError>(
            all_windows_allow(cs, ls, now, amount),
        ),
        record_error(cs, ls, now, amount) == (if all_windows_allow(cs, ls, now, amount) {
            None::<ComplianceModuleError>
        } else {
            Some(ComplianceModuleError::TransferLimitExceeded)
        }),
    decreases ls.len(),
{
    if ls.len() > 0 {
        let pre = ls.drop_last();
        let l = ls.last();
        assert forall|j: int| 0 <= j < pre.len() implies #[trigger] counter_in(
            cs,
            pre[j].limit_duration,
        ).value + amount <= i128::MAX by {
            assert(pre[j] == ls[j]);
        }
        lemma_check_is_per_window(cs, pre, now, amount);
        let c = counter_in(cs, l.limit_duration);
        assert(c.value + amount <= i128::MAX) by {
            assert(ls[ls.len() - 1] == l);
        }
        assert(c.value >= 0);
        if all_windows_allow(cs, pre, now, amount) {
            if window_allows(c, l, now, amount) {
                assert forall|j: int| 0 <= j < ls.len() implies #[trigger] window_allows(
                    counter_in(cs, ls[j].limit_duration),
                    ls[j],
                    now,
                    amount,
                ) by {
                    if j < ls.len() - 1 {
                        assert(ls[j] == pre[j]);
                    }
                }
            } else {
                assert(!window_allows(
                    counter_in(cs, ls[ls.len() - 1].limit_duration),
                    ls[ls.len() - 1],
                    now,
                    amount,
                ));
            }
        } else {
            let j = choose|j: int|
                0 <= j < pre.len() && !#[trigger] window_allows(
                    counter_in(cs, pre[j].limit_duration),
                    pre[j],
                    now,
                    amount,
                );
            assert(ls[j] == pre[j]);
            assert(!window_allows(counter_in(cs, ls[j].limit_duration), ls[j], now, amount));
        }
    }
}

/// After a recorded transfer, the counter of every window stays within
/// that window's cap.
pub proof fn lemma_recorded_within_caps(
    cs: Map<u32, TransferCounter>,
    ls: Seq<TransferLimit>,
    now: u32,
    amount: i128,
)
    requires
        durations_distinct(ls),
        record_error(cs, ls, now, amount) is None,
    ensures
        forall|j: int|
            0 <= j < ls.len() ==> #[trigger] counter_in(
                recorded(cs, ls, now, amount),
                ls[j].limit_duration,
            ).value <= ls[j].limit_value,
    decreases ls.len(),
{
    if ls.len() > 0 {
        let pre = ls.drop_last();
        assert(durations_distinct(pre)) by {
            assert forall|i: int, j: int| 0 <= i < j < pre.len() implies #[trigger] pre[i].limit_duration
                != #[trigger] pre[j].limit_duration by {
                assert(ls[i].limit_duration != ls[j].limit_duration);
            }
        }
        lemma_recorded_within_caps(cs, pre, now, amount);
        let l = ls.last();
        assert(l == ls[ls.len() - 1]);
        assert(record_error(cs, pre, now, amount) is None);
        let c = advance(counter_in(cs, l.limit_duration), l, now, amount)->Ok_0;
        assert(recorded(cs, ls, now, amount) == recorded(cs, pre, now, amount).insert(
            l.limit_duration,
            c,
        ));
        assert forall|j: int| 0 <= j < ls.len() implies #[trigger] counter_in(
            recorded(cs, ls, now, amount),
            ls[j].limit_duration,
        ).value <= ls[j].limit_value by {
            if j < ls.len() - 1 {
                assert(pre[j] == ls[j]);
                assert(ls[j].limit_duration != ls[ls.len() - 1].limit_duration);
                assert(counter_in(recorded(cs, pre, now, amount), pre[j].limit_duration).value
                    <= pre[j].limit_value);
            }
        }
    }
}

/// A window that has ended (its deadline is at or before `now`) forgets
/// what it counted: the check lets through exactly the amounts up to the
/// cap, and recording such an amount restarts the window at `now` with
/// the amount as its only count.
pub proof fn lemma_ended_window_restarts(c: TransferCounter, limit: TransferLimit, now: u32, amount: i128)
    requires
        c.deadline <= now,
    ensures
        window_check(c, limit, now, amount) == Ok::<bool, ComplianceModuleError>(amount <= limit.limit_value),
        0 <= amount <= limit.limit_value ==> advance(c, limit, now, amount) == Ok::<
            TransferCounter,
            ComplianceModuleError,
        >(TransferCounter { value: amount, deadline: window_end(now, limit.limit_duration) }),
{
}

} // verus!
