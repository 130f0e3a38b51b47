//! Time-window transfer limits as a self-contained module contract: per
//! token, up to four windows, each a duration in seconds and a cap on the
//! volume one identity may send within it. The transfer check refuses a
//! transfer that would exceed a cap; the transfer hook counts the volume
//! of every transfer, restarting an elapsed window at the ledger time.

use super::super::max_balance::resolve;
use super::super::storage::IRSRead;
use super::{ContractCore, ContractError, ModuleError};
use crate::common::{lemma_pair_injective, pair, pair_key, Address};
use std::collections::HashMap;
use std::string::String;
use std::vec::Vec;
use vstd::prelude::*;

verus! {

broadcast use vstd::std_specs::hash::group_hash_axioms;

/// The most windows that can be configured for one token.
pub const MAX_LIMITS_PER_TOKEN: u32 = 4;

/// One window: at most `limit_value` tokens within `limit_time` seconds.
#[derive(Clone, Copy, Debug, PartialEq, Eq, Structural)]
pub struct Limit {
    pub limit_time: u64,
    pub limit_value: i128,
}

/// The volume one identity has sent in its current window, which ends at
/// ledger time `timer`.
#[derive(Clone, Copy, Debug, PartialEq, Eq, Structural)]
pub struct TransferCounter {
    pub value: i128,
    pub timer: u64,
}

/// The contract's state.
pub struct TimeTransfersLimitsModule {
    base: ContractCore,
    limits: HashMap<Address, Vec<Limit>>,
    counters: HashMap<u128, HashMap<u64, TransferCounter>>,
}

/// The counter of an identity that never sent anything in a window.
pub open spec fn zero_counter() -> TransferCounter {
    TransferCounter { value: 0, timer: 0 }
}

/// The counter kept in `cs` for windows of `duration` ledgers.
pub open spec fn counter_in(cs: Map<u64, TransferCounter>, duration: u64) -> TransferCounter {
    if cs.contains_key(duration) {
        cs[duration]
    } else {
        zero_counter()
    }
}

/// No two windows of `ls` have the same duration.
pub open spec fn durations_distinct(ls: Seq<Limit>) -> bool {
    forall|i: int, j: int|
        0 <= i < j < ls.len() ==> #[trigger] ls[i].limit_time != #[trigger] ls[j].limit_time
}

/// A valid window list: within the bound and without two windows of one
/// duration.
pub open spec fn limits_wf(ls: Seq<Limit>) -> bool {
    ls.len() <= MAX_LIMITS_PER_TOKEN && durations_distinct(ls)
}

impl TimeTransfersLimitsModule {
    /// The windows configured for `token`, in order (none by default).
    pub closed spec fn limits_of(&self, token: Address) -> Seq<Limit> {
        if self.limits@.contains_key(token) {
            self.limits@[token]@
        } else {
            Seq::empty()
        }
    }

    /// The counters of `identity` under `token`, keyed by window duration.
    pub closed spec fn counters_of(&self, token: Address, identity: Address) -> Map<
        u64,
        TransferCounter,
    > {
        if self.counters@.contains_key(pair(token, identity)) {
            self.counters@[pair(token, identity)]@
        } else {
            Map::empty()
        }
    }

    /// The counter of `identity` under `token` for windows of `duration`.
    pub open spec fn counter_of(&self, token: Address, identity: Address, duration: u64) -> TransferCounter {
        counter_in(self.counters_of(token, identity), duration)
    }

    /// Every token's window list is valid.
    pub open spec fn wf(&self) -> bool {
        forall|t: Address| #[trigger] limits_wf(self.limits_of(t))
    }

    /// No window and no counter anywhere.
    pub fn new() -> (s: Self)
        ensures
            s.wf(),
            forall|t: Address| #[trigger] s.limits_of(t) == Seq::<Limit>::empty(),
            forall|t: Address, i: Address| #[trigger] s.counters_of(t, i) == Map::<u64, TransferCounter>::empty(),
    {
        TimeTransfersLimitsModule { base: ContractCore::new(), limits: HashMap::new(), counters: HashMap::new() }
    }
}

/// `s2` has the windows of `s1`, and its counters except those of
/// `identity` under `token`.
pub open spec fn counters_kept_except(
    s1: &TimeTransfersLimitsModule,
    s2: &TimeTransfersLimitsModule,
    token: Address,
    identity: Address,
) -> bool {
    &&& forall|t: Address| #[trigger] s2.limits_of(t) == s1.limits_of(t)
    &&& forall|t: Address, i: Address|
        !(t == token && i == identity) ==> #[trigger] s2.counters_of(t, i) == s1.counters_of(t, i)
}

/// `s2` has the bindings and counters of `s1`, and its windows except those
/// of `token`.
pub open spec fn limits_kept_except(s1: &TimeTransfersLimitsModule, s2: &TimeTransfersLimitsModule, token: Address) -> bool {
    &&& s2.base() == s1.base()
    &&& forall|t: Address| t != token ==> #[trigger] s2.limits_of(t) == s1.limits_of(t)
    &&& forall|t: Address, i: Address| #[trigger] s2.counters_of(t, i) == s1.counters_of(t, i)
}

/// `s2` keeps every window and counter of `s1`.
pub open spec fn books_kept(s1: &TimeTransfersLimitsModule, s2: &TimeTransfersLimitsModule) -> bool {
    &&& forall|t: Address| #[trigger] s2.limits_of(t) == s1.limits_of(t)
    &&& forall|t: Address, i: Address| #[trigger] s2.counters_of(t, i) == s1.counters_of(t, i)
}

/// The index of the first window of `ls` with duration `duration`, or `-1`
/// when there is none.
pub open spec fn position_of(ls: Seq<Limit>, duration: u64) -> int {
    if exists|i: int| is_first_match(ls, duration, i) {
        choose|i: int| is_first_match(ls, duration, i)
    } else {
        -1
    }
}

/// `i` is the first index of `ls` whose window has duration `duration`.
pub open spec fn is_first_match(ls: Seq<Limit>, duration: u64, i: int) -> bool {
    &&& 0 <= i < ls.len()
    &&& ls[i].limit_time == duration
    &&& forall|j: int| 0 <= j < i ==> #[trigger] ls[j].limit_time != duration
}

/// The window list after setting `limit`: a window of the same duration is
/// replaced in place, otherwise `limit` is appended within the bound.
pub open spec fn set_limit_result(ls: Seq<Limit>, limit: Limit) -> Result<
    Seq<Limit>,
    ContractError,
> {
    if limit.limit_value < 0 {
        Err(ContractError::Module(ModuleError::InvalidAmount))
    } else if position_of(ls, limit.limit_time) >= 0 {
        Ok(ls.update(position_of(ls, limit.limit_time), limit))
    } else if ls.len() >= MAX_LIMITS_PER_TOKEN {
        Err(ContractError::Module(ModuleError::MathOverflow))
    } else {
        Ok(ls.push(limit))
    }
}

/// The window list after removing the window of duration `duration`.
pub open spec fn remove_limit_result(ls: Seq<Limit>, duration: u64) -> Result<
    Seq<Limit>,
    ContractError,
> {
    if position_of(ls, duration) < 0 {
        Err(ContractError::Module(ModuleError::MissingLimit))
    } else {
        Ok(ls.remove(position_of(ls, duration)))
    }
}

/// The window list after setting each of `news` in order, or the first
/// error.
pub open spec fn set_all(ls: Seq<Limit>, news: Seq<Limit>) -> Result<
    Seq<Limit>,
    ContractError,
>
    decreases news.len(),
{
    if news.len() == 0 {
        Ok(ls)
    } else {
        match set_all(ls, news.drop_last()) {
            Err(e) => Err(e),
            Ok(m) => set_limit_result(m, news.last()),
        }
    }
}

/// The window list after removing each duration of `ds` in order, or the
/// first error.
pub open spec fn remove_all(ls: Seq<Limit>, ds: Seq<u64>) -> Result<
    Seq<Limit>,
    ContractError,
>
    decreases ds.len(),
{
    if ds.len() == 0 {
        Ok(ls)
    } else {
        match remove_all(ls, ds.drop_last()) {
            Err(e) => Err(e),
            Ok(m) => remove_limit_result(m, ds.last()),
        }
    }
}

/// `now + duration`, saturating at the largest ledger sequence.
pub open spec fn window_end(now: u64, duration: u64) -> u64 {
    if now + duration > u64::MAX {
        u64::MAX
    } else {
        (now + duration) as u64
    }
}

/// The counter after a transfer of `amount` at ledger `now` under window
/// `limit`: an elapsed window restarts first; the error refuses the
/// transfer.
pub open spec fn advance(c: TransferCounter, limit: Limit, now: u64, amount: i128) -> Result<
    TransferCounter,
    ContractError,
> {
    let base = if c.timer <= now {
        TransferCounter { value: 0, timer: window_end(now, limit.limit_time) }
    } else {
        c
    };
    if !(i128::MIN <= base.value + amount <= i128::MAX) {
        Err(ContractError::Module(ModuleError::MathOverflow))
    } else {
        Ok(TransferCounter { value: (base.value + amount) as i128, timer: base.timer })
    }
}

/// The first error, window by window, of recording a transfer of `amount`
/// at `now` on the counters `cs`.
pub open spec fn record_error(cs: Map<u64, TransferCounter>, ls: Seq<Limit>, now: u64, amount: i128) -> Option<
    ContractError,
>
    decreases ls.len(),
{
    if ls.len() == 0 {
        None
    } else {
        match record_error(cs, ls.drop_last(), now, amount) {
            Some(e) => Some(e),
            None => match advance(counter_in(cs, ls.last().limit_time), ls.last(), now, amount) {
                Err(e) => Some(e),
                Ok(_) => None,
            },
        }
    }
}

/// The counters after recording a transfer of `amount` at `now` on `cs`
/// against every window of `ls`.
pub open spec fn recorded(cs: Map<u64, TransferCounter>, ls: Seq<Limit>, now: u64, amount: i128) -> Map<
    u64,
    TransferCounter,
>
    decreases ls.len(),
{
    if ls.len() == 0 {
        cs
    } else {
        let m = recorded(cs, ls.drop_last(), now, amount);
        match advance(counter_in(cs, ls.last().limit_time), ls.last(), now, amount) {
            Ok(c) => m.insert(ls.last().limit_time, c),
            Err(_) => m,
        }
    }
}

// ---------------------------------------------------------------------------
// Lemmas on the recursive specifications.

/// A matching window has a first matching window.
proof fn lemma_first_match_exists(ls: Seq<Limit>, duration: u64, i: int)
    requires
        0 <= i < ls.len(),
        ls[i].limit_time == duration,
    ensures
        exists|k: int| is_first_match(ls, duration, k),
    decreases i,
{
    if exists|j: int| 0 <= j < i && #[trigger] ls[j].limit_time == duration {
        let j = choose|j: int| 0 <= j < i && #[trigger] ls[j].limit_time == duration;
        lemma_first_match_exists(ls, duration, j);
    } else {
        assert(is_first_match(ls, duration, i));
    }
}

/// `position_of` is the first matching index, or `-1` exactly when no
/// window matches.
proof fn lemma_position(ls: Seq<Limit>, duration: u64)
    ensures
        position_of(ls, duration) == -1 <==> forall|j: int|
            0 <= j < ls.len() ==> #[trigger] ls[j].limit_time != duration,
        position_of(ls, duration) != -1 ==> is_first_match(ls, duration, position_of(ls, duration)),
        forall|i: int| is_first_match(ls, duration, i) ==> position_of(ls, duration) == i,
{
    if exists|j: int| 0 <= j < ls.len() && #[trigger] ls[j].limit_time == duration {
        let j = choose|j: int| 0 <= j < ls.len() && #[trigger] ls[j].limit_time == duration;
        lemma_first_match_exists(ls, duration, j);
    }
    assert forall|i: int| is_first_match(ls, duration, i) implies position_of(ls, duration) == i by {
        let p = position_of(ls, duration);
        assert(is_first_match(ls, duration, p));
        if p < i {
            assert(ls[p].limit_time != duration);
        }
        if p > i {
            assert(ls[i].limit_time != duration);
        }
    }
}

/// Setting a window keeps a valid list valid.
proof fn lemma_set_keeps_wf(ls: Seq<Limit>, limit: Limit)
    requires
        limits_wf(ls),
    ensures
        set_limit_result(ls, limit) matches Ok(n) ==> limits_wf(n),
{
    lemma_position(ls, limit.limit_time);
    if let Ok(n) = set_limit_result(ls, limit) {
        let p = position_of(ls, limit.limit_time);
        if p >= 0 {
            assert forall|i: int, j: int| 0 <= i < j < n.len() implies #[trigger] n[i].limit_time
                != #[trigger] n[j].limit_time by {
                if i != p && j != p {
                    assert(ls[i].limit_time != ls[j].limit_time);
                } else if i == p {
                    assert(ls[i].limit_time != ls[j].limit_time);
                } else {
                    assert(ls[i].limit_time != ls[j].limit_time);
                }
            }
        } else {
            assert forall|i: int, j: int| 0 <= i < j < n.len() implies #[trigger] n[i].limit_time
                != #[trigger] n[j].limit_time by {
                if j < ls.len() {
                    assert(ls[i].limit_time != ls[j].limit_time);
                } else {
                    assert(ls[i].limit_time != limit.limit_time);
                }
            }
        }
    }
}

/// Removing a window keeps a valid list valid.
proof fn lemma_remove_keeps_wf(ls: Seq<Limit>, duration: u64)
    requires
        limits_wf(ls),
    ensures
        remove_limit_result(ls, duration) matches Ok(n) ==> limits_wf(n),
{
    lemma_position(ls, duration);
    if let Ok(n) = remove_limit_result(ls, duration) {
        let p = position_of(ls, duration);
        assert forall|i: int, j: int| 0 <= i < j < n.len() implies #[trigger] n[i].limit_time
            != #[trigger] n[j].limit_time by {
            let ii = if i < p { i } else { i + 1 };
            let jj = if j < p { j } else { j + 1 };
            assert(n[i] == ls[ii]);
            assert(n[j] == ls[jj]);
            assert(ls[ii].limit_time != ls[jj].limit_time);
        }
    }
}

/// Setting a sequence of windows keeps a valid list valid.
proof fn lemma_set_all_keeps_wf(ls: Seq<Limit>, news: Seq<Limit>)
    requires
        limits_wf(ls),
    ensures
        set_all(ls, news) matches Ok(n) ==> limits_wf(n),
    decreases news.len(),
{
    if news.len() > 0 {
        lemma_set_all_keeps_wf(ls, news.drop_last());
        if let Ok(m) = set_all(ls, news.drop_last()) {
            lemma_set_keeps_wf(m, news.last());
        }
    }
}

/// Removing a sequence of windows keeps a valid list valid.
proof fn lemma_remove_all_keeps_wf(ls: Seq<Limit>, ds: Seq<u64>)
    requires
        limits_wf(ls),
    ensures
        remove_all(ls, ds) matches Ok(n) ==> limits_wf(n),
    decreases ds.len(),
{
    if ds.len() > 0 {
        lemma_remove_all_keeps_wf(ls, ds.drop_last());
        if let Ok(m) = remove_all(ls, ds.drop_last()) {
            lemma_remove_keeps_wf(m, ds.last());
        }
    }
}

/// Once a prefix of the windows fails, the whole list fails the same way.
proof fn lemma_record_error_persists(
    cs: Map<u64, TransferCounter>,
    ls: Seq<Limit>,
    k: int,
    now: u64,
    amount: i128,
)
    requires
        0 <= k <= ls.len(),
        record_error(cs, ls.take(k), now, amount) is Some,
    ensures
        record_error(cs, ls, now, amount) == record_error(cs, ls.take(k), now, amount),
    decreases ls.len() - k,
{
    if k < ls.len() {
        assert(ls.drop_last().take(k) =~= ls.take(k));
        lemma_record_error_persists(cs, ls.drop_last(), k, now, amount);
    } else {
        assert(ls.take(k) =~= ls);
    }
}

/// When no window fails, every single window accepts the transfer.
proof fn lemma_record_ok_each(cs: Map<u64, TransferCounter>, ls: Seq<Limit>, now: u64, amount: i128)
    requires
        record_error(cs, ls, now, amount) is None,
    ensures
        forall|j: int|
            0 <= j < ls.len() ==> #[trigger] advance(
                counter_in(cs, ls[j].limit_time),
                ls[j],
                now,
                amount,
            ) is Ok,
    decreases ls.len(),
{
    if ls.len() > 0 {
        lemma_record_ok_each(cs, ls.drop_last(), now, amount);
        assert forall|j: int| 0 <= j < ls.len() implies #[trigger] advance(
            counter_in(cs, ls[j].limit_time),
            ls[j],
            now,
            amount,
        ) is Ok by {
            if j < ls.len() - 1 {
                assert(ls.drop_last()[j] == ls[j]);
            }
        }
    }
}

/// Recording only touches the counters of the windows recorded.
proof fn lemma_recorded_keeps_others(
    cs: Map<u64, TransferCounter>,
    ls: Seq<Limit>,
    now: u64,
    amount: i128,
    d: u64,
)
    requires
        forall|j: int| 0 <= j < ls.len() ==> #[trigger] ls[j].limit_time != d,
    ensures
        counter_in(recorded(cs, ls, now, amount), d) == counter_in(cs, d),
        recorded(cs, ls, now, amount).contains_key(d) == cs.contains_key(d),
    decreases ls.len(),
{
    if ls.len() > 0 {
        assert forall|j: int| 0 <= j < ls.drop_last().len() implies #[trigger] ls.drop_last()[j].limit_time
            != d by {
            assert(ls.drop_last()[j] == ls[j]);
        }
        lemma_recorded_keeps_others(cs, ls.drop_last(), now, amount, d);
        assert(ls.last() == ls[ls.len() - 1]);
    }
}

// ---------------------------------------------------------------------------
// Executable operations.

/// Copies a window list.
fn copy_limits(v: &Vec<Limit>) -> (r: Vec<Limit>)
    ensures
        r@ == v@,
{
    let mut r: Vec<Limit> = Vec::new();
    let mut i: usize = 0;
    while i < v.len()
        invariant
            i <= v.len(),
            r@ == v@.take(i as int),
        decreases v.len() - i,
    {
        r.push(v[i]);
        proof {
            assert(v@.take(i + 1) =~= v@.take(i as int).push(v@[i as int]));
        }
        i = i + 1;
    }
    proof {
        assert(v@.take(v@.len() as int) =~= v@);
    }
    r
}



/// Finds the first window of `ls` with duration `duration`.
fn find_duration(ls: &Vec<Limit>, duration: u64) -> (r: Option<usize>)
    ensures
        match r {
            Some(i) => i == position_of(ls@, duration),
            None => position_of(ls@, duration) == -1,
        },
{
    let mut i: usize = 0;
    while i < ls.len()
        invariant
            i <= ls.len(),
            forall|j: int| 0 <= j < i ==> #[trigger] ls@[j].limit_time != duration,
        decreases ls.len() - i,
    {
        if ls[i].limit_time == duration {
            proof {
                assert(is_first_match(ls@, duration, i as int));
                lemma_position(ls@, duration);
            }
            return Some(i);
        }
        i = i + 1;
    }
    proof {
        lemma_position(ls@, duration);
    }
    None
}

/// Sets `limit` in the window list `ls`.
fn set_in(ls: &mut Vec<Limit>, limit: Limit) -> (r: Result<(), ContractError>)
    ensures
        match set_limit_result(old(ls)@, limit) {
            Ok(n) => r is Ok && final(ls)@ == n,
            Err(e) => r == Err::<(), ContractError>(e) && final(ls)@ == old(ls)@,
        },
{
    if limit.limit_value < 0 {
        return Err(ContractError::Module(ModuleError::InvalidAmount));
    }
    match find_duration(ls, limit.limit_time) {
        Some(i) => {
            ls.set(i, limit);
            Ok(())
        },
        None => {
            if ls.len() >= MAX_LIMITS_PER_TOKEN as usize {
                Err(ContractError::Module(ModuleError::MathOverflow))
            } else {
                ls.push(limit);
                Ok(())
            }
        },
    }
}

/// Removes the window of duration `duration` from `ls`.
fn remove_in(ls: &mut Vec<Limit>, duration: u64) -> (r: Result<(), ContractError>)
    ensures
        match remove_limit_result(old(ls)@, duration) {
            Ok(n) => r is Ok && final(ls)@ == n,
            Err(e) => r == Err::<(), ContractError>(e) && final(ls)@ == old(ls)@,
        },
{
    match find_duration(ls, duration) {
        Some(i) => {
            ls.remove(i);
            Ok(())
        },
        None => Err(ContractError::Module(ModuleError::MissingLimit)),
    }
}


/// Once a prefix of the settings fails, setting the whole sequence fails
/// the same way.
proof fn lemma_set_all_error_persists(ls: Seq<Limit>, news: Seq<Limit>, k: int)
    requires
        0 <= k <= news.len(),
        set_all(ls, news.take(k)) is Err,
    ensures
        set_all(ls, news) == set_all(ls, news.take(k)),
    decreases news.len() - k,
{
    if k < news.len() {
        assert(news.drop_last().take(k) =~= news.take(k));
        lemma_set_all_error_persists(ls, news.drop_last(), k);
    } else {
        assert(news.take(k) =~= news);
    }
}

/// Once a prefix of the removals fails, removing the whole sequence fails
/// the same way.
proof fn lemma_remove_all_error_persists(ls: Seq<Limit>, ds: Seq<u64>, k: int)
    requires
        0 <= k <= ds.len(),
        remove_all(ls, ds.take(k)) is Err,
    ensures
        remove_all(ls, ds) == remove_all(ls, ds.take(k)),
    decreases ds.len() - k,
{
    if k < ds.len() {
        assert(ds.drop_last().take(k) =~= ds.take(k));
        lemma_remove_all_error_persists(ls, ds.drop_last(), k);
    } else {
        assert(ds.take(k) =~= ds);
    }
}

impl TimeTransfersLimitsModule {
    /// Returns the windows configured for `token`, in order.
    pub fn get_time_transfer_limits(&self, token: Address) -> (r: Vec<Limit>)
        ensures
            r@ == self.limits_of(token),
    {
        match self.limits.get(&token) {
            Some(v) => copy_limits(v),
            None => Vec::new(),
        }
    }

    /// Returns the counter of `identity` under `token` for windows of
    /// `limit_time` ledgers (zeroed when none was recorded).
    pub fn get_transfer_counter(&self, token: Address, identity: Address, limit_time: u64) -> (r:
        TransferCounter)
        ensures
            r == self.counter_of(token, identity, limit_time),
    {
        match self.counters.get(&pair_key(token, identity)) {
            Some(m) => match m.get(&limit_time) {
                Some(c) => *c,
                None => TransferCounter { value: 0, timer: 0 },
            },
            None => TransferCounter { value: 0, timer: 0 },
        }
    }

    /// Sets a window for `token`: a window of the same duration is replaced in
    /// place, otherwise the new one is appended.
    ///
    /// # Errors
    ///
    /// * [`ContractError::Module(ModuleError::InvalidAmount)`] - When `limit.limit_value` is
    ///   negative.
    /// * [`ContractError::Module(ModuleError::MathOverflow)`] - When appending would
    ///   exceed [`MAX_LIMITS_PER_TOKEN`].
    pub fn set_time_transfer_limit(&mut self, token: Address, limit: Limit) -> (r:
        Result<(), ContractError>)
        ensures
            match set_limit_result(old(self).limits_of(token), limit) {
                Ok(n) => r is Ok && final(self).limits_of(token) == n,
                Err(e) => r == Err::<(), ContractError>(e) && *final(self) == *old(self),
            },
            limits_kept_except(old(self), final(self), token),
            old(self).wf() ==> final(self).wf(),
    {
        let mut ls = Self::get_time_transfer_limits(self, token);
        let r = set_in(&mut ls, limit);
        if r.is_ok() {
            self.limits.insert(token, ls);
        }
        proof {
            if old(self).wf() {
                assert(limits_wf(old(self).limits_of(token)));
                lemma_set_keeps_wf(old(self).limits_of(token), limit);
                assert forall|t: Address| #[trigger] limits_wf(final(self).limits_of(t)) by {
                    if t != token {
                        assert(limits_wf(old(self).limits_of(t)));
                    }
                }
            }
        }
        r
    }

    /// Sets each window of `limits` for `token` in order; either all are set
    /// or, on the first error, none is.
    ///
    /// # Errors
    ///
    /// * see [`set_time_transfer_limit`].
    #[verifier::loop_isolation(false)]
    pub fn batch_set_time_transfer_limit(&mut self, token: Address, limits: &Vec<Limit>) -> (r:
        Result<(), ContractError>)
        ensures
            match set_all(old(self).limits_of(token), limits@) {
                Ok(n) => r is Ok && final(self).limits_of(token) == n,
                Err(e) => r == Err::<(), ContractError>(e) && *final(self) == *old(self),
            },
            limits_kept_except(old(self), final(self), token),
            old(self).wf() ==> final(self).wf(),
    {
        let ghost orig = self.limits_of(token);
        let mut ls = Self::get_time_transfer_limits(self, token);
        let mut i: usize = 0;
        while i < limits.len()
            invariant
                i <= limits.len(),
                set_all(orig, limits@.take(i as int)) == Ok::<Seq<Limit>, ContractError>(
                    ls@,
                ),
            decreases limits.len() - i,
        {
            proof {
                assert(limits@.take(i + 1).drop_last() =~= limits@.take(i as int));
                assert(limits@.take(i + 1).last() == limits@[i as int]);
            }
            match set_in(&mut ls, limits[i]) {
                Ok(()) => {},
                Err(e) => {
                    proof {
                        assert(set_all(orig, limits@.take(i + 1)) == Err::<
                            Seq<Limit>,
                            ContractError,
                        >(e));
                        lemma_set_all_error_persists(orig, limits@, i + 1);
                    }
                    return Err(e);
                },
            }
            i = i + 1;
        }
        proof {
            assert(limits@.take(limits@.len() as int) =~= limits@);
        }
        self.limits.insert(token, ls);
        proof {
            if old(self).wf() {
                assert(limits_wf(orig));
                lemma_set_all_keeps_wf(orig, limits@);
                assert forall|t: Address| #[trigger] limits_wf(final(self).limits_of(t)) by {
                    if t != token {
                        assert(limits_wf(old(self).limits_of(t)));
                    }
                }
            }
        }
        Ok(())
    }

    /// Removes the window of duration `limit_time` for `token`. Counters
    /// recorded for that window are kept: configuring the same duration again
    /// resumes an unexpired counter.
    ///
    /// # Errors
    ///
    /// * [`ContractError::Module(ModuleError::MissingLimit)`] - When `token` has no window of
    ///   that duration.
    pub fn remove_time_transfer_limit(&mut self, token: Address, limit_time: u64) -> (r:
        Result<(), ContractError>)
        ensures
            match remove_limit_result(old(self).limits_of(token), limit_time) {
                Ok(n) => r is Ok && final(self).limits_of(token) == n,
                Err(e) => r == Err::<(), ContractError>(e) && *final(self) == *old(self),
            },
            limits_kept_except(old(self), final(self), token),
            old(self).wf() ==> final(self).wf(),
    {
        let mut ls = Self::get_time_transfer_limits(self, token);
        let r = remove_in(&mut ls, limit_time);
        if r.is_ok() {
            self.limits.insert(token, ls);
        }
        proof {
            if old(self).wf() {
                assert(limits_wf(old(self).limits_of(token)));
                lemma_remove_keeps_wf(old(self).limits_of(token), limit_time);
                assert forall|t: Address| #[trigger] limits_wf(final(self).limits_of(t)) by {
                    if t != token {
                        assert(limits_wf(old(self).limits_of(t)));
                    }
                }
            }
        }
        r
    }

    /// Removes each window duration of `limit_times` for `token` in order;
    /// either all are removed or, on the first error, none is.
    ///
    /// # Errors
    ///
    /// * see [`remove_time_transfer_limit`].
    #[verifier::loop_isolation(false)]
    pub fn batch_remove_time_transfer_limit(&mut self, token: Address, limit_times: &Vec<u64>) -> (r:
        Result<(), ContractError>)
        ensures
            match remove_all(old(self).limits_of(token), limit_times@) {
                Ok(n) => r is Ok && final(self).limits_of(token) == n,
                Err(e) => r == Err::<(), ContractError>(e) && *final(self) == *old(self),
            },
            limits_kept_except(old(self), final(self), token),
            old(self).wf() ==> final(self).wf(),
    {
        let ghost orig = self.limits_of(token);
        let mut ls = Self::get_time_transfer_limits(self, token);
        let mut i: usize = 0;
        while i < limit_times.len()
            invariant
                i <= limit_times.len(),
                remove_all(orig, limit_times@.take(i as int)) == Ok::<
                    Seq<Limit>,
                    ContractError,
                >(ls@),
            decreases limit_times.len() - i,
        {
            proof {
                assert(limit_times@.take(i + 1).drop_last() =~= limit_times@.take(i as int));
                assert(limit_times@.take(i + 1).last() == limit_times@[i as int]);
            }
            match remove_in(&mut ls, limit_times[i]) {
                Ok(()) => {},
                Err(e) => {
                    proof {
                        assert(remove_all(orig, limit_times@.take(i + 1)) == Err::<
                            Seq<Limit>,
                            ContractError,
                        >(e));
                        lemma_remove_all_error_persists(orig, limit_times@, i + 1);
                    }
                    return Err(e);
                },
            }
            i = i + 1;
        }
        proof {
            assert(limit_times@.take(limit_times@.len() as int) =~= limit_times@);
        }
        self.limits.insert(token, ls);
        proof {
            if old(self).wf() {
                assert(limits_wf(orig));
                lemma_remove_all_keeps_wf(orig, limit_times@);
                assert forall|t: Address| #[trigger] limits_wf(final(self).limits_of(t)) by {
                    if t != token {
                        assert(limits_wf(old(self).limits_of(t)));
                    }
                }
            }
        }
        Ok(())
    }
}

/// What the transfer hook records for a transfer of `amount` from `from` at
/// ledger time `now`: the sender identity and its new counters, or the
/// error.
pub open spec fn transfer_outcome<R: IRSRead>(
    s: &TimeTransfersLimitsModule,
    reg: &R,
    from: Address,
    amount: i128,
    token: Address,
    now: u64,
) -> Result<(Address, Map<u64, TransferCounter>), ContractError> {
    if amount < 0 {
        Err(ContractError::Module(ModuleError::InvalidAmount))
    } else if s.base().registry_of(token) is None {
        Err(ContractError::Module(ModuleError::IdentityRegistryNotSet))
    } else {
        match resolve(reg, from) {
            Err(e) => Err(ContractError::Registry(e)),
            Ok(id) => match record_error(s.counters_of(token, id), s.limits_of(token), now, amount) {
                Some(e) => Err(e),
                None => Ok((id, recorded(s.counters_of(token, id), s.limits_of(token), now, amount))),
            },
        }
    }
}

/// Whether one window lets a transfer of `amount` at `now` through, given
/// the counter `c`; the error comes from an overflowing sum.
pub open spec fn window_check(c: TransferCounter, limit: Limit, now: u64, amount: i128) -> Result<
    bool,
    ContractError,
> {
    if amount > limit.limit_value {
        Ok(false)
    } else if !(c.timer <= now) {
        if !(i128::MIN <= c.value + amount <= i128::MAX) {
            Err(ContractError::Module(ModuleError::MathOverflow))
        } else {
            Ok(c.value + amount <= limit.limit_value)
        }
    } else {
        Ok(true)
    }
}

/// Whether every window of `ls` lets the transfer through, checked in
/// order up to the first refusal or error.
pub open spec fn windows_check(cs: Map<u64, TransferCounter>, ls: Seq<Limit>, now: u64, amount: i128) -> Result<
    bool,
    ContractError,
>
    decreases ls.len(),
{
    if ls.len() == 0 {
        Ok(true)
    } else {
        match windows_check(cs, ls.drop_last(), now, amount) {
            Ok(true) => window_check(counter_in(cs, ls.last().limit_time), ls.last(), now, amount),
            other => other,
        }
    }
}

/// The answer of the transfer check for `amount` from `from` at `now`.
pub open spec fn check_outcome<R: IRSRead>(
    s: &TimeTransfersLimitsModule,
    reg: &R,
    from: Address,
    amount: i128,
    token: Address,
    now: u64,
) -> Result<bool, ContractError> {
    if amount < 0 {
        Ok(false)
    } else if s.base().registry_of(token) is None {
        Err(ContractError::Module(ModuleError::IdentityRegistryNotSet))
    } else {
        match resolve(reg, from) {
            Err(e) => Err(ContractError::Registry(e)),
            Ok(id) => windows_check(s.counters_of(token, id), s.limits_of(token), now, amount),
        }
    }
}

/// Once a prefix of the windows refuses or errs, the whole check gives
/// that answer.
proof fn lemma_windows_check_persists(
    cs: Map<u64, TransferCounter>,
    ls: Seq<Limit>,
    k: int,
    now: u64,
    amount: i128,
)
    requires
        0 <= k <= ls.len(),
        windows_check(cs, ls.take(k), now, amount) != Ok::<bool, ContractError>(true),
    ensures
        windows_check(cs, ls, now, amount) == windows_check(cs, ls.take(k), now, amount),
    decreases ls.len() - k,
{
    if k < ls.len() {
        assert(ls.drop_last().take(k) =~= ls.take(k));
        lemma_windows_check_persists(cs, ls.drop_last(), k, now, amount);
    } else {
        assert(ls.take(k) =~= ls);
    }
}

/// Computes [`advance`].
fn advance_counter(c: TransferCounter, limit: Limit, now: u64, amount: i128) -> (r: Result<
    TransferCounter,
    ContractError,
>)
    ensures
        r == advance(c, limit, now, amount),
{
    let base = if c.timer <= now {
        TransferCounter { value: 0, timer: now.saturating_add(limit.limit_time) }
    } else {
        c
    };
    match base.value.checked_add(amount) {
        Some(v) => Ok(TransferCounter { value: v, timer: base.timer }),
        None => Err(ContractError::Module(ModuleError::MathOverflow)),
    }
}

/// Computes [`window_check`].
fn check_window(c: TransferCounter, limit: Limit, now: u64, amount: i128) -> (r: Result<
    bool,
    ContractError,
>)
    ensures
        r == window_check(c, limit, now, amount),
{
    if amount > limit.limit_value {
        return Ok(false);
    }
    if !(c.timer <= now) {
        match c.value.checked_add(amount) {
            Some(v) => Ok(v <= limit.limit_value),
            None => Err(ContractError::Module(ModuleError::MathOverflow)),
        }
    } else {
        Ok(true)
    }
}

impl TimeTransfersLimitsModule {
    /// The shared contract state.
    pub closed spec fn base(&self) -> ContractCore {
        self.base
    }

    /// Binds `irs` as the identity registry of `token`.
    pub fn set_identity_registry_storage(&mut self, token: Address, irs: Address)
        requires
            old(self).wf(),
        ensures
            final(self).wf(),
            final(self).base().registry_of(token) == Some(irs),
            forall|t: Address| t != token ==> #[trigger] final(self).base().registry_of(t) == old(self).base().registry_of(t),
            final(self).base().compliance() == old(self).base().compliance(),
            books_kept(old(self), final(self)),
    {
        self.base.set_irs_address(token, irs);
        proof {
            assert forall|t: Address| #[trigger] limits_wf(final(self).limits_of(t)) by {
                assert(limits_wf(old(self).limits_of(t)));
            }
        }
    }

    /// Counts a transfer of `amount` from `from` at ledger time `now`
    /// against every window of `token`, `irs` being the registry contract
    /// bound to `token`: each elapsed window restarts and each counter grows
    /// by `amount`; either every counter is updated or none is.
    ///
    /// # Errors
    ///
    /// * [`ModuleError::InvalidAmount`] - When `amount` is negative.
    /// * [`ModuleError::IdentityRegistryNotSet`] - When no registry is bound.
    /// * the registry's error when `from` cannot be resolved.
    /// * [`ModuleError::MathOverflow`] - When a counter overflows.
    #[verifier::loop_isolation(false)]
    pub fn on_transfer<R: IRSRead>(&mut self, from: Address, to: Address, amount: i128, token: Address, irs: &R, now: u64) -> (r: Result<(), ContractError>)
        requires
            old(self).base().registry_of(token) is None || old(self).base().registry_of(token) == Some(irs.spec_address()),
            old(self).wf(),
        ensures
            final(self).wf(),
            final(self).base() == old(self).base(),
            match transfer_outcome(old(self), irs, from, amount, token, now) {
                Err(e) => r == Err::<(), ContractError>(e) && *final(self) == *old(self),
                Ok((id, m)) => {
                    &&& r is Ok
                    &&& final(self).counters_of(token, id) == m
                    &&& counters_kept_except(old(self), final(self), token, id)
                },
            },
    {
        if amount < 0 {
            return Err(ContractError::Module(ModuleError::InvalidAmount));
        }
        match self.base.require_registry(token) {
            Err(e) => {
                return Err(e);
            },
            Ok(()) => {},
        }
        let id = match irs.stored_identity(from) {
            Ok(i) => i,
            Err(e) => {
                return Err(ContractError::Registry(e));
            },
        };
        let ls = Self::get_time_transfer_limits(self, token);
        let ghost cs = self.counters_of(token, id);
        proof {
            assert(limits_wf(self.limits_of(token)));
        }
        let mut j: usize = 0;
        while j < ls.len()
            invariant
                j <= ls.len(),
                record_error(cs, ls@.take(j as int), now, amount) is None,
            decreases ls.len() - j,
        {
            proof {
                assert(ls@.take(j + 1).drop_last() =~= ls@.take(j as int));
                assert(ls@.take(j + 1).last() == ls@[j as int]);
            }
            let c = Self::get_transfer_counter(self, token, id, ls[j].limit_time);
            match advance_counter(c, ls[j], now, amount) {
                Ok(_) => {},
                Err(e) => {
                    proof {
                        lemma_record_error_persists(cs, ls@, j + 1, now, amount);
                    }
                    return Err(e);
                },
            }
            j = j + 1;
        }
        proof {
            assert(ls@.take(ls@.len() as int) =~= ls@);
            lemma_record_ok_each(cs, ls@, now, amount);
        }
        let k = pair_key(token, id);
        let mut inner: HashMap<u64, TransferCounter> = match self.counters.remove(&k) {
            Some(m) => m,
            None => HashMap::new(),
        };
        let mut j: usize = 0;
        while j < ls.len()
            invariant
                j <= ls.len(),
                inner@ == recorded(cs, ls@.take(j as int), now, amount),
            decreases ls.len() - j,
        {
            let l = ls[j];
            proof {
                assert(ls@.take(j + 1).drop_last() =~= ls@.take(j as int));
                assert(ls@.take(j + 1).last() == l);
                assert forall|q: int| 0 <= q < ls@.take(j as int).len() implies #[trigger] ls@.take(
                    j as int,
                )[q].limit_time != l.limit_time by {
                    assert(ls@[q].limit_time != ls@[j as int].limit_time);
                }
                lemma_recorded_keeps_others(cs, ls@.take(j as int), now, amount, l.limit_time);
            }
            let c = match inner.get(&l.limit_time) {
                Some(c) => *c,
                None => TransferCounter { value: 0, timer: 0 },
            };
            let c2 = match advance_counter(c, l, now, amount) {
                Ok(c2) => c2,
                Err(e) => {
                    return Err(e);
                },
            };
            inner.insert(l.limit_time, c2);
            j = j + 1;
        }
        proof {
            assert(ls@.take(ls@.len() as int) =~= ls@);
        }
        self.counters.insert(k, inner);
        proof {
            assert forall|t: Address, i: Address| !(t == token && i == id) implies #[trigger] final(self).counters_of(t, i)
                == old(self).counters_of(t, i) by {
                lemma_pair_injective(t, i, token, id);
            }
            assert forall|t: Address| #[trigger] limits_wf(final(self).limits_of(t)) by {
                assert(limits_wf(old(self).limits_of(t)));
            }
        }
        Ok(())
    }

    /// Records a mint: nothing to record.
    pub fn on_created(&self, to: Address, amount: i128, token: Address) {
    }

    /// Records a burn: nothing to record.
    pub fn on_destroyed(&self, from: Address, amount: i128, token: Address) {
    }

    /// Returns whether a transfer of `amount` from `from` at ledger time
    /// `now` fits every window of `token`, `irs` being the registry contract
    /// bound to `token`: the amount alone must not exceed a window's cap,
    /// and within a running window the counter plus `amount` must stay
    /// within it.
    ///
    /// # Errors
    ///
    /// * [`ModuleError::IdentityRegistryNotSet`] - When no registry is bound.
    /// * the registry's error when `from` cannot be resolved.
    /// * [`ModuleError::MathOverflow`] - When a sum overflows.
    #[verifier::loop_isolation(false)]
    pub fn can_transfer<R: IRSRead>(&self, from: Address, to: Address, amount: i128, token: Address, irs: &R, now: u64) -> (r: Result<bool, ContractError>)
        requires
            self.base().registry_of(token) is None || self.base().registry_of(token) == Some(irs.spec_address()),
        ensures
            r == check_outcome(self, irs, from, amount, token, now),
    {
        if amount < 0 {
            return Ok(false);
        }
        match self.base.require_registry(token) {
            Err(e) => {
                return Err(e);
            },
            Ok(()) => {},
        }
        let id = match irs.stored_identity(from) {
            Ok(i) => i,
            Err(e) => {
                return Err(ContractError::Registry(e));
            },
        };
        let ls = Self::get_time_transfer_limits(self, token);
        let ghost cs = self.counters_of(token, id);
        let mut j: usize = 0;
        while j < ls.len()
            invariant
                j <= ls.len(),
                windows_check(cs, ls@.take(j as int), now, amount) == Ok::<bool, ContractError>(true),
            decreases ls.len() - j,
        {
            proof {
                assert(ls@.take(j + 1).drop_last() =~= ls@.take(j as int));
                assert(ls@.take(j + 1).last() == ls@[j as int]);
            }
            let c = Self::get_transfer_counter(self, token, id, ls[j].limit_time);
            match check_window(c, ls[j], now, amount) {
                Ok(true) => {},
                Ok(false) => {
                    proof {
                        lemma_windows_check_persists(cs, ls@, j + 1, now, amount);
                    }
                    return Ok(false);
                },
                Err(e) => {
                    proof {
                        lemma_windows_check_persists(cs, ls@, j + 1, now, amount);
                    }
                    return Err(e);
                },
            }
            j = j + 1;
        }
        proof {
            assert(ls@.take(ls@.len() as int) =~= ls@);
        }
        Ok(true)
    }

    /// Mints are not limited.
    pub fn can_create(&self, to: Address, amount: i128, token: Address) -> (r: bool)
        ensures
            r,
    {
        true
    }

    /// The contract's name.
    pub fn name(&self) -> (r: String)
        ensures
            r@ == "TimeTransfersLimitsModule"@,
    {
        String::from_str("TimeTransfersLimitsModule")
    }

    /// Returns the compliance contract, or `self_address` when none is set.
    pub fn get_compliance_address(&self, self_address: Address) -> (r: Address)
        ensures
            r == (match self.base().compliance() {
                Some(c) => c,
                None => self_address,
            }),
    {
        self.base.get_compliance_address(self_address)
    }

    /// Sets the compliance contract.
    pub fn set_compliance_address(&mut self, compliance: Address)
        requires
            old(self).wf(),
        ensures
            final(self).wf(),
            final(self).base().compliance() == Some(compliance),
            forall|t: Address| #[trigger] final(self).base().registry_of(t) == old(self).base().registry_of(t),
            books_kept(old(self), final(self)),
    {
        self.base.set_compliance_address(compliance);
        proof {
            assert forall|t: Address| #[trigger] limits_wf(final(self).limits_of(t)) by {
                assert(limits_wf(old(self).limits_of(t)));
            }
        }
    }
}

/// Every counted transfer adds its amount to the counter of each window
/// (after restarting an elapsed one).
pub proof fn lemma_recorded_adds_amount(cs: Map<u64, TransferCounter>, ls: Seq<Limit>, now: u64, amount: i128, j: int)
    requires
        durations_distinct(ls),
        record_error(cs, ls, now, amount) is None,
        0 <= j < ls.len(),
    ensures
        ({
            let c = counter_in(cs, ls[j].limit_time);
            let after = counter_in(recorded(cs, ls, now, amount), ls[j].limit_time);
            &&& c.timer <= now ==> after.value == amount && after.timer == window_end(now, ls[j].limit_time)
            &&& c.timer > now ==> after.value == c.value + amount && after.timer == c.timer
        }),
    decreases ls.len(),
{
    lemma_record_ok_each(cs, ls, now, amount);
    let pre = ls.drop_last();
    let l = ls.last();
    assert(l == ls[ls.len() - 1]);
    assert(record_error(cs, pre, now, amount) is None);
    let c = advance(counter_in(cs, l.limit_time), l, now, amount)->Ok_0;
    assert(recorded(cs, ls, now, amount) == recorded(cs, pre, now, amount).insert(l.limit_time, c));
    if j < ls.len() - 1 {
        assert(durations_distinct(pre)) by {
            assert forall|a: int, b: int| 0 <= a < b < pre.len() implies #[trigger] pre[a].limit_time
                != #[trigger] pre[b].limit_time by {
                assert(ls[a].limit_time != ls[b].limit_time);
            }
        }
        assert(pre[j] == ls[j]);
        assert(ls[j].limit_time != ls[ls.len() - 1].limit_time);
        lemma_recorded_adds_amount(cs, pre, now, amount, j);
    }
}

/// Whether window `limit`, with counter `c`, lets `amount` through at time
/// `now`: the amount alone fits the cap, and while the window is still
/// running (it ends at `c.timer`), so does what it already counted plus
/// the amount. A window that has ended counts nothing.
pub open spec fn window_permits(c: TransferCounter, limit: Limit, now: u64, amount: i128) -> bool {
    amount <= limit.limit_value && (now < c.timer ==> c.value + amount <= limit.limit_value)
}

/// One window's check: an ended window (`c.timer <= now`) accepts any
/// amount up to the cap, whatever it counted before; a running one adds
/// the amount to its count; and the check answers `true` exactly when
/// recording the same transfer (which restarts an ended window) leaves the
/// counter within the cap.
pub proof fn lemma_window_check_meaning(c: TransferCounter, limit: Limit, now: u64, amount: i128)
    requires
        amount >= 0,
        c.value >= 0,
        c.value + amount <= i128::MAX,
    ensures
        window_check(c, limit, now, amount) == Ok::<bool, ContractError>(window_permits(c, limit, now, amount)),
        c.timer <= now ==> window_check(c, limit, now, amount) == Ok::<bool, ContractError>(
            amount <= limit.limit_value,
        ),
        window_permits(c, limit, now, amount) <==> (advance(c, limit, now, amount) matches Ok(n)
            && n.value <= limit.limit_value),
{
}

/// A window that has ended (its counter's timer is at or before `now`)
/// forgets what it counted: it lets through exactly the amounts up to the
/// cap, whatever its stale count, and recording a transfer restarts it at
/// `now` with the amount as its only count.
pub proof fn lemma_ended_window_ignores_old_count(c: TransferCounter, limit: Limit, now: u64, amount: i128)
    requires
        c.timer <= now,
    ensures
        window_check(c, limit, now, amount) == Ok::<bool, ContractError>(amount <= limit.limit_value),
        0 <= amount ==> advance(c, limit, now, amount) == Ok::<TransferCounter, ContractError>(
            TransferCounter { value: amount, timer: window_end(now, limit.limit_time) },
        ),
{
}

/// Where no counter sum overflows, the transfer check answers whether
/// every window of `ls` lets the transfer through.
pub proof fn lemma_check_is_per_window(cs: Map<u64, TransferCounter>, ls: Seq<Limit>, now: u64, amount: i128)
    requires
        amount >= 0,
        forall|d: u64| cs.contains_key(d) ==> #[trigger] cs[d].value >= 0,
        forall|j: int|
            0 <= j < ls.len() ==> #[trigger] counter_in(cs, ls[j].limit_time).value + amount <= i128::MAX,
    ensures
        windows_check(cs, ls, now, amount) == Ok::<bool, ContractError>(
            forall|j: int|
                0 <= j < ls.len() ==> #[trigger] window_permits(counter_in(cs, ls[j].limit_time), ls[j], now, amount),
        ),
    decreases ls.len(),
{
    if ls.len() > 0 {
        let pre = ls.drop_last();
        let l = ls.last();
        assert forall|j: int| 0 <= j < pre.len() implies #[trigger] counter_in(cs, pre[j].limit_time).value
            + amount <= i128::MAX by {
            assert(pre[j] == ls[j]);
        }
        lemma_check_is_per_window(cs, pre, now, amount);
        let c = counter_in(cs, l.limit_time);
        assert(c.value + amount <= i128::MAX) by {
            assert(ls[ls.len() - 1] == l);
        }
        assert(c.value >= 0);
        lemma_window_check_meaning(c, l, now, amount);
        let all_pre = forall|j: int|
            0 <= j < pre.len() ==> #[trigger] window_permits(counter_in(cs, pre[j].limit_time), pre[j], now, amount);
        if all_pre {
            if window_permits(c, l, now, amount) {
                assert forall|j: int| 0 <= j < ls.len() implies #[trigger] window_permits(
                    counter_in(cs, ls[j].limit_time),
                    ls[j],
                    now,
                    amount,
                ) by {
                    if j < ls.len() - 1 {
                        assert(ls[j] == pre[j]);
                    }
                }
            } else {
                assert(!window_permits(counter_in(cs, ls[ls.len() - 1].limit_time), ls[ls.len() - 1], now, amount));
            }
        } else {
            let j = choose|j: int|
                0 <= j < pre.len() && !#[trigger] window_permits(counter_in(cs, pre[j].limit_time), pre[j], now, amount);
            assert(ls[j] == pre[j]);
            assert(!window_permits(counter_in(cs, ls[j].limit_time), ls[j], now, amount));
        }
    }
}

} // verus!
