//! Initial lockup period: tokens received through primary issuance (mints)
//! stay locked for a configured per-token number of ledgers. Every mint adds
//! a lock entry that releases after the period; transfers and burns may only
//! spend a wallet's unlocked holdings. Tokens received through peer-to-peer
//! transfers are never locked.
//!
//! The module does not mirror balances: each hook receives the wallet's
//! balance before the operation, and the module tracks only the lock
//! schedule. The spendable amount is the part of the balance not covered by
//! locks, plus the locks that have already expired.
//!
//! Locks are consumed oldest first. A privileged forced transfer (seizure)
//! consumes locks whether or not they expired; a recovery moves the consumed
//! locks, with their release ledgers, onto the destination wallet.
//!
//! A wallet holds at most [`MAX_LOCKS`] concurrently active locks; a mint that
//! would go past that cap is rejected.

use super::storage::require_non_negative_amount;
use super::ComplianceModuleError;
use crate::common::{lemma_pair_injective, pair, pair_key, Address};
use crate::compliance::TransferKind;
use std::collections::{HashMap, HashSet};
use std::vec::Vec;
use vstd::prelude::*;

verus! {

broadcast use vstd::std_specs::hash::group_hash_axioms;

/// The maximum number of concurrently active locks per wallet.
pub const MAX_LOCKS: u32 = 512;

/// An amount of tokens locked until a ledger sequence number.
#[derive(Clone, Copy, Debug, PartialEq, Eq, Structural)]
pub struct LockedTokens {
    pub amount: i128,
    pub release_ledger: u32,
}

/// A wallet's lock schedule: its locks, oldest first, and their total.
#[derive(Clone, Debug, PartialEq, Eq)]
pub struct LockedDetails {
    pub total_locked: i128,
    pub locks: Vec<LockedTokens>,
}

// ################## SPECIFICATION ##################

/// The sum of the amounts of `locks`.
pub open spec fn sum_amounts(locks: Seq<LockedTokens>) -> int
    decreases locks.len(),
{
    if locks.len() == 0 {
        0
    } else {
        sum_amounts(locks.drop_last()) + locks.last().amount
    }
}

/// The sum of the amounts of the locks of `locks` that have released at
/// ledger `now`.
pub open spec fn expired_sum(locks: Seq<LockedTokens>, now: u32) -> int
    decreases locks.len(),
{
    if locks.len() == 0 {
        0
    } else {
        expired_sum(locks.drop_last(), now) + if locks.last().release_ledger <= now {
            locks.last().amount as int
        } else {
            0
        }
    }
}

/// The locks of `locks` that have not released at ledger `now`, in order.
pub open spec fn unexpired(locks: Seq<LockedTokens>, now: u32) -> Seq<LockedTokens>
    decreases locks.len(),
{
    if locks.len() == 0 {
        Seq::empty()
    } else if locks.last().release_ledger > now {
        unexpired(locks.drop_last(), now).push(locks.last())
    } else {
        unexpired(locks.drop_last(), now)
    }
}

/// Consuming `need` tokens from the expired locks of `locks`, oldest first:
/// the locks that remain (a partly consumed lock keeps its remainder) and the
/// part of `need` that the expired locks could not cover.
pub open spec fn consume_expired(locks: Seq<LockedTokens>, now: u32, need: int) -> (
    Seq<LockedTokens>,
    int,
)
    decreases locks.len(),
{
    if locks.len() == 0 {
        (Seq::empty(), need)
    } else {
        let (out, rest) = consume_expired(locks.drop_last(), now, need);
        let l = locks.last();
        if rest > 0 && l.release_ledger <= now {
            if l.amount <= rest {
                (out, rest - l.amount)
            } else {
                (
                    out.push(
                        LockedTokens { amount: (l.amount - rest) as i128, release_ledger: l.release_ledger },
                    ),
                    0,
                )
            }
        } else {
            (out.push(l), rest)
        }
    }
}

/// Consuming `need` tokens from the locks of `locks`, oldest first, whether
/// or not they expired: the locks that remain, the consumed pieces (each
/// keeping its release ledger), and the part of `need` left uncovered.
pub open spec fn consume_forced(locks: Seq<LockedTokens>, need: int) -> (
    Seq<LockedTokens>,
    Seq<LockedTokens>,
    int,
)
    decreases locks.len(),
{
    if locks.len() == 0 {
        (Seq::empty(), Seq::empty(), need)
    } else {
        let (rem, moved, rest) = consume_forced(locks.drop_last(), need);
        let l = locks.last();
        if rest > 0 {
            if l.amount <= rest {
                (rem, moved.push(l), rest - l.amount)
            } else {
                (
                    rem.push(
                        LockedTokens { amount: (l.amount - rest) as i128, release_ledger: l.release_ledger },
                    ),
                    moved.push(LockedTokens { amount: rest as i128, release_ledger: l.release_ledger }),
                    0,
                )
            }
        } else {
            (rem.push(l), moved, rest)
        }
    }
}

/// Every lock amount is non-negative.
pub open spec fn amounts_non_negative(locks: Seq<LockedTokens>) -> bool {
    forall|i: int| 0 <= i < locks.len() ==> #[trigger] locks[i].amount >= 0
}

/// A lock schedule is well formed when its amounts are non-negative and its
/// total is their sum.
pub open spec fn schedule_wf(total: int, locks: Seq<LockedTokens>) -> bool {
    amounts_non_negative(locks) && total == sum_amounts(locks)
}

/// The part of `balance` that no lock covers (never negative).
pub open spec fn free_portion(balance: int, total: int) -> int {
    if balance - total > 0 {
        balance - total
    } else {
        0
    }
}

// ################## LEMMAS ##################

/// Sums of non-negative amounts are non-negative and bound each prefix.
pub proof fn lemma_sum_prefix(locks: Seq<LockedTokens>, i: int)
    requires
        amounts_non_negative(locks),
        0 <= i <= locks.len(),
    ensures
        0 <= sum_amounts(locks.take(i)) <= sum_amounts(locks),
    decreases locks.len(),
{
    if locks.len() == 0 {
        assert(locks.take(i) =~= locks);
    } else if i == locks.len() {
        assert(locks.take(i) =~= locks);
        lemma_sum_prefix(locks.drop_last(), i - 1);
        assert(locks.drop_last().take(i - 1) =~= locks.drop_last());
        assert(locks.last() == locks[locks.len() - 1]);
    } else {
        assert(locks.drop_last().take(i) =~= locks.take(i));
        lemma_sum_prefix(locks.drop_last(), i);
        assert(locks[locks.len() - 1].amount >= 0);
    }
}

/// The sum of a sequence extended by one lock.
pub proof fn lemma_sum_push(locks: Seq<LockedTokens>, l: LockedTokens)
    ensures
        sum_amounts(locks.push(l)) == sum_amounts(locks) + l.amount,
{
    assert(locks.push(l).drop_last() =~= locks);
}

/// The sum of two concatenated sequences.
pub proof fn lemma_sum_concat(a: Seq<LockedTokens>, b: Seq<LockedTokens>)
    ensures
        sum_amounts(a + b) == sum_amounts(a) + sum_amounts(b),
    decreases b.len(),
{
    if b.len() == 0 {
        assert(a + b =~= a);
    } else {
        lemma_sum_concat(a, b.drop_last());
        assert((a + b).drop_last() =~= a + b.drop_last());
    }
}

/// Expired and unexpired locks partition the schedule.
pub proof fn lemma_unexpired(locks: Seq<LockedTokens>, now: u32)
    requires
        amounts_non_negative(locks),
    ensures
        sum_amounts(unexpired(locks, now)) + expired_sum(locks, now) == sum_amounts(locks),
        amounts_non_negative(unexpired(locks, now)),
        0 <= expired_sum(locks, now) <= sum_amounts(locks),
        unexpired(locks, now).len() <= locks.len(),
    decreases locks.len(),
{
    if locks.len() > 0 {
        lemma_unexpired(locks.drop_last(), now);
        lemma_sum_push(unexpired(locks.drop_last(), now), locks.last());
        assert(locks.last() == locks[locks.len() - 1]);
        assert(amounts_non_negative(unexpired(locks, now))) by {
            let u = unexpired(locks, now);
            assert forall|i: int| 0 <= i < u.len() implies #[trigger] u[i].amount >= 0 by {
                let p = unexpired(locks.drop_last(), now);
                if i < p.len() {
                    assert(u[i] == p[i]);
                }
            }
        }
        lemma_sum_prefix(locks, locks.len() - 1);
        assert(locks.take(locks.len() - 1) =~= locks.drop_last());
    }
}

/// Consuming expired locks takes exactly the covered part of `need` out of
/// the schedule, and keeps amounts non-negative.
pub proof fn lemma_consume_expired(locks: Seq<LockedTokens>, now: u32, need: int)
    requires
        amounts_non_negative(locks),
        need >= 0,
    ensures
        ({
            let (out, left) = consume_expired(locks, now, need);
            &&& 0 <= left <= need
            &&& sum_amounts(out) == sum_amounts(locks) - (need - left)
            &&& amounts_non_negative(out)
            &&& out.len() <= locks.len()
        }),
    decreases locks.len(),
{
    if locks.len() > 0 {
        lemma_consume_expired(locks.drop_last(), now, need);
        let (out, rest) = consume_expired(locks.drop_last(), now, need);
        let l = locks.last();
        assert(l == locks[locks.len() - 1]);
        lemma_sum_push(out, l);
        lemma_sum_push(
            out,
            LockedTokens { amount: (l.amount - rest) as i128, release_ledger: l.release_ledger },
        );
        let (o2, _) = consume_expired(locks, now, need);
        assert forall|i: int| 0 <= i < o2.len() implies #[trigger] o2[i].amount >= 0 by {
            if i < out.len() {
                assert(o2[i] == out[i]);
            }
        }
    }
}

/// Forced consumption splits the schedule into the remaining and the consumed
/// pieces, and consumes the covered part of `need`.
pub proof fn lemma_consume_forced(locks: Seq<LockedTokens>, need: int)
    requires
        amounts_non_negative(locks),
        need >= 0,
    ensures
        ({
            let (rem, moved, left) = consume_forced(locks, need);
            &&& 0 <= left <= need
            &&& sum_amounts(moved) == need - left
            &&& sum_amounts(rem) + sum_amounts(moved) == sum_amounts(locks)
            &&& amounts_non_negative(rem)
            &&& amounts_non_negative(moved)
            &&& rem.len() <= locks.len()
            &&& moved.len() <= locks.len()
            &&& (left > 0 ==> rem.len() == 0)
        }),
    decreases locks.len(),
{
    if locks.len() > 0 {
        lemma_consume_forced(locks.drop_last(), need);
        let (rem, moved, rest) = consume_forced(locks.drop_last(), need);
        let l = locks.last();
        assert(l == locks[locks.len() - 1]);
        lemma_sum_push(rem, l);
        lemma_sum_push(moved, l);
        let split_rem = LockedTokens {
            amount: (l.amount - rest) as i128,
            release_ledger: l.release_ledger,
        };
        let split_moved = LockedTokens { amount: rest as i128, release_ledger: l.release_ledger };
        lemma_sum_push(rem, split_rem);
        lemma_sum_push(moved, split_moved);
        let (r2, m2, _) = consume_forced(locks, need);
        assert forall|i: int| 0 <= i < r2.len() implies #[trigger] r2[i].amount >= 0 by {
            if i < rem.len() {
                assert(r2[i] == rem[i]);
            }
        }
        assert forall|i: int| 0 <= i < m2.len() implies #[trigger] m2[i].amount >= 0 by {
            if i < moved.len() {
                assert(m2[i] == moved[i]);
            }
        }
    }
}

/// The oldest-first split of `locks` after the first `k` locks and `a`
/// tokens of lock `k` are taken: the remaining locks (lock `k` keeping
/// what is left of it) and the taken pieces (each with its release
/// ledger).
pub open spec fn oldest_first_split(locks: Seq<LockedTokens>, k: int, a: int) -> (
    Seq<LockedTokens>,
    Seq<LockedTokens>,
) {
    if a > 0 {
        (
            seq![LockedTokens { amount: (locks[k].amount - a) as i128, release_ledger: locks[k].release_ledger }]
                + locks.skip(k + 1),
            locks.take(k).push(LockedTokens { amount: a as i128, release_ledger: locks[k].release_ledger }),
        )
    } else {
        (locks.skip(k), locks.take(k))
    }
}

/// Forced consumption takes the locks oldest first: some first locks are
/// taken whole and at most one more is split, the rest being kept as they
/// were.
pub proof fn lemma_consume_forced_is_oldest_first(locks: Seq<LockedTokens>, need: int)
    requires
        amounts_non_negative(locks),
        need >= 0,
    ensures
        exists|k: int, a: int|
            0 <= k <= locks.len() && 0 <= a && (a > 0 ==> k < locks.len() && a < locks[k].amount)
                && #[trigger] oldest_first_split(locks, k, a) == (
                consume_forced(locks, need).0,
                consume_forced(locks, need).1,
            ),
    decreases locks.len(),
{
    if locks.len() == 0 {
        assert(oldest_first_split(locks, 0, 0) == (consume_forced(locks, need).0, consume_forced(locks, need).1)) by {
            assert(locks.skip(0) =~= Seq::<LockedTokens>::empty());
            assert(locks.take(0) =~= Seq::<LockedTokens>::empty());
        }
    } else {
        let p = locks.drop_last();
        let n = p.len() as int;
        let l = locks.last();
        assert(amounts_non_negative(p)) by {
            assert forall|i: int| 0 <= i < p.len() implies #[trigger] p[i].amount >= 0 by {
                assert(p[i] == locks[i]);
            }
        }
        assert(l == locks[n]);
        lemma_consume_forced_is_oldest_first(p, need);
        lemma_consume_forced(p, need);
        let (rem, moved, rest) = consume_forced(p, need);
        let (k, a) = choose|k: int, a: int|
            0 <= k <= p.len() && 0 <= a && (a > 0 ==> k < p.len() && a < p[k].amount)
                && #[trigger] oldest_first_split(p, k, a) == (rem, moved);
        assert(locks.take(n) =~= p);
        if rest > 0 {
            assert(rem.len() == 0);
            assert(k == n && a == 0) by {
                if k < n {
                    if a > 0 {
                        assert(oldest_first_split(p, k, a).0.len() >= 1);
                    } else {
                        assert(p.skip(k).len() >= 1);
                    }
                }
            }
            assert(moved =~= p.take(n));
            assert(moved =~= p);
            if l.amount <= rest {
                let kk = locks.len() as int;
                assert(oldest_first_split(locks, kk, 0) == (consume_forced(locks, need).0, consume_forced(locks, need).1)) by {
                    assert(locks.skip(kk) =~= Seq::<LockedTokens>::empty());
                    assert(locks.take(kk) =~= locks);
                    assert(p.push(l) =~= locks);
                }
            } else {
                assert(oldest_first_split(locks, n, rest) == (consume_forced(locks, need).0, consume_forced(locks, need).1)) by {
                    assert(locks.skip(n + 1) =~= Seq::<LockedTokens>::empty());
                }
            }
        } else {
            assert(rest == 0) by {
                lemma_consume_forced(p, need);
            }
            if a > 0 {
                assert(k < n);
                assert(locks[k] == p[k]);
                assert(oldest_first_split(locks, k, a) == (consume_forced(locks, need).0, consume_forced(locks, need).1)) by {
                    assert(locks.take(k) =~= p.take(k));
                    assert(locks.skip(k + 1) =~= p.skip(k + 1).push(l));
                    assert(seq![LockedTokens { amount: (locks[k].amount - a) as i128, release_ledger: locks[k].release_ledger }]
                        + locks.skip(k + 1) =~= (seq![LockedTokens { amount: (p[k].amount - a) as i128, release_ledger: p[k].release_ledger }]
                        + p.skip(k + 1)).push(l));
                }
            } else {
                assert(oldest_first_split(locks, k, 0) == (consume_forced(locks, need).0, consume_forced(locks, need).1)) by {
                    assert(locks.take(k) =~= p.take(k));
                    assert(locks.skip(k) =~= p.skip(k).push(l));
                }
                if k == n {
                    assert(0 < locks.len());
                } else {
                    assert(locks[k] == p[k]);
                }
            }
        }
    }
}

// ################## STATE ##################

/// The module's state: per-token lockup periods, per-(token, wallet) lock
/// schedules, and per-token preset-phase completion.
pub struct InitialLockupPeriod {
    periods: HashMap<Address, u32>,
    details: HashMap<u128, LockedDetails>,
    preset_completed: HashSet<Address>,
}

impl InitialLockupPeriod {
    /// Every stored schedule is well formed.
    pub closed spec fn wf(&self) -> bool {
        forall|k: u128|
            #[trigger] self.details@.contains_key(k) ==> schedule_wf(
                self.details@[k].total_locked as int,
                self.details@[k].locks@,
            )
    }

    /// The lockup period of `token` (0 when unset).
    pub closed spec fn period_of(&self, token: Address) -> u32 {
        if self.periods@.contains_key(token) {
            self.periods@[token]
        } else {
            0
        }
    }

    /// The locks of `wallet` for `token`, oldest first.
    pub closed spec fn locks_of(&self, token: Address, wallet: Address) -> Seq<LockedTokens> {
        if self.details@.contains_key(pair(token, wallet)) {
            self.details@[pair(token, wallet)].locks@
        } else {
            Seq::empty()
        }
    }

    /// The total locked amount of `wallet` for `token`.
    pub closed spec fn total_of(&self, token: Address, wallet: Address) -> int {
        if self.details@.contains_key(pair(token, wallet)) {
            self.details@[pair(token, wallet)].total_locked as int
        } else {
            0
        }
    }

    /// Whether the preset phase of `token` is finalized.
    pub closed spec fn preset_done(&self, token: Address) -> bool {
        self.preset_completed@.contains(token)
    }

    /// `self` and `other` agree on periods, preset flags and every schedule
    /// but those of `(token, a)` and `(token, b)`.
    pub open spec fn same_except(&self, other: &Self, token: Address, a: Address, b: Address) -> bool {
        &&& forall|t: Address| #[trigger] self.period_of(t) == other.period_of(t)
        &&& forall|t: Address| #[trigger] self.preset_done(t) == other.preset_done(t)
        &&& forall|t: Address, w: Address|
            !(t == token && (w == a || w == b)) ==> #[trigger] self.locks_of(t, w) == other.locks_of(
                t,
                w,
            ) && self.total_of(t, w) == other.total_of(t, w)
    }

    /// A state with no period, no lock and no finalized preset.
    pub fn new() -> (s: Self)
        ensures
            s.wf(),
            forall|t: Address| #[trigger] s.period_of(t) == 0 && !s.preset_done(t),
            forall|t: Address, w: Address|
                #[trigger] s.locks_of(t, w) == Seq::<LockedTokens>::empty() && s.total_of(t, w)
                    == 0,
    {
        InitialLockupPeriod {
            periods: HashMap::new(),
            details: HashMap::new(),
            preset_completed: HashSet::new(),
        }
    }

    proof fn lemma_wf_entry(&self, token: Address, wallet: Address)
        requires
            self.wf(),
        ensures
            schedule_wf(self.total_of(token, wallet), self.locks_of(token, wallet)),
            self.total_of(token, wallet) >= 0,
    {
        if self.details@.contains_key(pair(token, wallet)) {
        }
        lemma_sum_prefix(self.locks_of(token, wallet), 0);
    }

    /// Copies the schedule of `(token, wallet)`.
    fn load(&self, token: Address, wallet: Address) -> (d: LockedDetails)
        requires
            self.wf(),
        ensures
            d.total_locked == self.total_of(token, wallet),
            d.locks@ == self.locks_of(token, wallet),
            schedule_wf(d.total_locked as int, d.locks@),
            d.total_locked >= 0,
    {
        proof {
            self.lemma_wf_entry(token, wallet);
        }
        let k = pair_key(token, wallet);
        match self.details.get(&k) {
            Some(d) => LockedDetails { total_locked: d.total_locked, locks: copy_locks(&d.locks) },
            None => LockedDetails { total_locked: 0, locks: Vec::new() },
        }
    }

    /// Replaces the schedule of `(token, wallet)`.
    fn store(&mut self, token: Address, wallet: Address, d: LockedDetails)
        requires
            old(self).wf(),
            schedule_wf(d.total_locked as int, d.locks@),
        ensures
            final(self).wf(),
            final(self).locks_of(token, wallet) == d.locks@,
            final(self).total_of(token, wallet) == d.total_locked,
            final(self).same_except(old(self), token, wallet, wallet),
    {
        let k = pair_key(token, wallet);
        self.details.insert(k, d);
        proof {
            assert forall|t: Address, w: Address|
                !(t == token && (w == wallet || w == wallet)) implies #[trigger] final(self).locks_of(
                t,
                w,
            ) == old(self).locks_of(t, w) && final(self).total_of(t, w) == old(self).total_of(
                t,
                w,
            ) by {
                lemma_pair_injective(t, w, token, wallet);
            }
        }
    }
}

/// Two successive changes confined to `(token, a)` and then `(token, b)`
/// change nothing but those two schedules.
proof fn lemma_same_except_chain(
    s1: &InitialLockupPeriod,
    s2: &InitialLockupPeriod,
    s3: &InitialLockupPeriod,
    token: Address,
    a: Address,
    b: Address,
)
    requires
        s2.same_except(s1, token, a, a),
        s3.same_except(s2, token, b, b),
    ensures
        s3.same_except(s1, token, a, b),
{
    assert forall|t: Address, w: Address| !(t == token && (w == a || w == b)) implies #[trigger] s3.locks_of(t, w)
        == s1.locks_of(t, w) && s3.total_of(t, w) == s1.total_of(t, w) by {
        assert(s2.locks_of(t, w) == s1.locks_of(t, w));
        assert(s3.locks_of(t, w) == s2.locks_of(t, w));
    }
}

/// A copy of a list of locks.
fn copy_locks(v: &Vec<LockedTokens>) -> (out: Vec<LockedTokens>)
    ensures
        out@ == v@,
{
    let mut out: Vec<LockedTokens> = Vec::new();
    let mut i: usize = 0;
    while i < v.len()
        invariant
            i <= v.len(),
            out@ == v@.take(i as int),
        decreases v.len() - i,
    {
        out.push(v[i]);
        proof {
            assert(v@.take(i + 1) =~= v@.take(i as int).push(v@[i as int]));
        }
        i = i + 1;
    }
    assert(v@.take(v@.len() as int) =~= v@);
    out
}

// ################## LOW-LEVEL HELPERS ##################

/// The sum of the amounts of the locks that released at ledger `now`.
fn expired_amount(locks: &Vec<LockedTokens>, now: u32) -> (r: i128)
    requires
        amounts_non_negative(locks@),
        sum_amounts(locks@) <= i128::MAX,
    ensures
        r == expired_sum(locks@, now),
{
    let mut expired: i128 = 0;
    let mut i: usize = 0;
    while i < locks.len()
        invariant
            i <= locks.len(),
            amounts_non_negative(locks@),
            sum_amounts(locks@) <= i128::MAX,
            expired == expired_sum(locks@.take(i as int), now),
        decreases locks.len() - i,
    {
        proof {
            assert(locks@.take(i + 1).drop_last() =~= locks@.take(i as int));
            lemma_unexpired(locks@.take(i + 1), now);
            assert(amounts_non_negative(locks@.take(i + 1)));
            lemma_sum_prefix(locks@, i + 1);
        }
        let lock = locks[i];
        if lock.release_ledger <= now {
            expired = expired + lock.amount;
        }
        i = i + 1;
    }
    assert(locks@.take(locks@.len() as int) =~= locks@);
    expired
}

/// Drops the locks that released at ledger `now` from a schedule.
fn prune_expired_locks(details: &LockedDetails, now: u32) -> (out: LockedDetails)
    requires
        schedule_wf(details.total_locked as int, details.locks@),
    ensures
        out.locks@ == unexpired(details.locks@, now),
        out.total_locked == details.total_locked - expired_sum(details.locks@, now),
        schedule_wf(out.total_locked as int, out.locks@),
{
    let mut remaining: Vec<LockedTokens> = Vec::new();
    let mut i: usize = 0;
    while i < details.locks.len()
        invariant
            i <= details.locks.len(),
            remaining@ == unexpired(details.locks@.take(i as int), now),
        decreases details.locks.len() - i,
    {
        proof {
            assert(details.locks@.take(i + 1).drop_last() =~= details.locks@.take(i as int));
        }
        let lock = details.locks[i];
        if lock.release_ledger > now {
            remaining.push(lock);
        }
        i = i + 1;
    }
    assert(details.locks@.take(details.locks@.len() as int) =~= details.locks@);
    proof {
        lemma_unexpired(details.locks@, now);
    }
    let expired = expired_amount(&details.locks, now);
    LockedDetails { total_locked: details.total_locked - expired, locks: remaining }
}

/// Consumes `amount` tokens from the expired locks of a schedule, oldest
/// first.
///
/// # Errors
///
/// * [`ComplianceModuleError::InsufficientUnlockedBalance`] - When the
///   expired locks hold less than `amount`.
fn consume_expired_locks(details: &LockedDetails, amount: i128, now: u32) -> (r: Result<
    LockedDetails,
    ComplianceModuleError,
>)
    requires
        schedule_wf(details.total_locked as int, details.locks@),
        amount >= 0,
    ensures
        consume_expired(details.locks@, now, amount as int).1 > 0 ==> r == Err::<
            LockedDetails,
            ComplianceModuleError,
        >(ComplianceModuleError::InsufficientUnlockedBalance),
        consume_expired(details.locks@, now, amount as int).1 == 0 ==> r is Ok,
        consume_expired(details.locks@, now, amount as int).1 >= 0,
        r matches Ok(out) ==> out.locks@ == consume_expired(details.locks@, now, amount as int).0
            && out.total_locked == details.total_locked - amount && schedule_wf(
            out.total_locked as int,
            out.locks@,
        ),
{
    proof {
        lemma_consume_expired(details.locks@, now, amount as int);
    }
    let mut to_consume: i128 = amount;
    let mut remaining: Vec<LockedTokens> = Vec::new();
    let mut i: usize = 0;
    while i < details.locks.len()
        invariant
            i <= details.locks.len(),
            amounts_non_negative(details.locks@),
            amount >= 0,
            (remaining@, to_consume as int) == consume_expired(
                details.locks@.take(i as int),
                now,
                amount as int,
            ),
            0 <= to_consume <= amount,
        decreases details.locks.len() - i,
    {
        proof {
            assert(details.locks@.take(i + 1).drop_last() =~= details.locks@.take(i as int));
            assert(details.locks@.take(i + 1).last() == details.locks@[i as int]);
            assert(details.locks@[i as int].amount >= 0);
        }
        let lock = details.locks[i];
        if to_consume > 0 && lock.release_ledger <= now {
            if lock.amount <= to_consume {
                to_consume = to_consume - lock.amount;
            } else {
                remaining.push(
                    LockedTokens {
                        amount: lock.amount - to_consume,
                        release_ledger: lock.release_ledger,
                    },
                );
                to_consume = 0;
            }
        } else {
            remaining.push(lock);
        }
        i = i + 1;
    }
    assert(details.locks@.take(details.locks@.len() as int) =~= details.locks@);
    if to_consume > 0 {
        return Err(ComplianceModuleError::InsufficientUnlockedBalance);
    }
    proof {
        lemma_consume_expired(details.locks@, now, amount as int);
        lemma_sum_prefix(remaining@, 0);
    }
    Ok(LockedDetails { total_locked: details.total_locked - amount, locks: remaining })
}

/// Consumes up to `amount` tokens from the locks of a schedule, oldest first,
/// whether or not they expired; returns the remaining schedule and the
/// consumed pieces.
fn consume_locks_forced(details: &LockedDetails, amount: i128) -> (r: (
    LockedDetails,
    Vec<LockedTokens>,
))
    requires
        schedule_wf(details.total_locked as int, details.locks@),
        amount >= 0,
    ensures
        r.0.locks@ == consume_forced(details.locks@, amount as int).0,
        r.1@ == consume_forced(details.locks@, amount as int).1,
        r.0.total_locked == details.total_locked - sum_amounts(r.1@),
        schedule_wf(r.0.total_locked as int, r.0.locks@),
        amounts_non_negative(r.1@),
{
    let mut to_consume: i128 = amount;
    let mut remaining: Vec<LockedTokens> = Vec::new();
    let mut consumed: Vec<LockedTokens> = Vec::new();
    let mut i: usize = 0;
    while i < details.locks.len()
        invariant
            i <= details.locks.len(),
            amounts_non_negative(details.locks@),
            amount >= 0,
            (remaining@, consumed@, to_consume as int) == consume_forced(
                details.locks@.take(i as int),
                amount as int,
            ),
            0 <= to_consume <= amount,
        decreases details.locks.len() - i,
    {
        proof {
            assert(details.locks@.take(i + 1).drop_last() =~= details.locks@.take(i as int));
            assert(details.locks@.take(i + 1).last() == details.locks@[i as int]);
            assert(details.locks@[i as int].amount >= 0);
        }
        let lock = details.locks[i];
        if to_consume > 0 {
            if lock.amount <= to_consume {
                to_consume = to_consume - lock.amount;
                consumed.push(lock);
            } else {
                remaining.push(
                    LockedTokens {
                        amount: lock.amount - to_consume,
                        release_ledger: lock.release_ledger,
                    },
                );
                consumed.push(
                    LockedTokens { amount: to_consume, release_ledger: lock.release_ledger },
                );
                to_consume = 0;
            }
        } else {
            remaining.push(lock);
        }
        i = i + 1;
    }
    assert(details.locks@.take(details.locks@.len() as int) =~= details.locks@);
    proof {
        lemma_consume_forced(details.locks@, amount as int);
        lemma_sum_prefix(remaining@, 0);
    }
    let consumed_total = amount - to_consume;
    (LockedDetails { total_locked: details.total_locked - consumed_total, locks: remaining }, consumed)
}

// ################## OUTCOMES ##################

/// The ledger at which a lock created at `now` for `period` ledgers releases
/// (saturating at the largest ledger number).
pub open spec fn release_at(now: u32, period: u32) -> u32 {
    if now + period > u32::MAX {
        u32::MAX
    } else {
        (now + period) as u32
    }
}

/// The first error that presetting `locks` runs into, if any: a negative
/// amount, or a running total that no longer fits.
pub open spec fn preset_error(locks: Seq<LockedTokens>) -> Option<ComplianceModuleError>
    decreases locks.len(),
{
    if locks.len() == 0 {
        None
    } else if preset_error(locks.drop_last()) is Some {
        preset_error(locks.drop_last())
    } else if locks.last().amount < 0 {
        Some(ComplianceModuleError::InvalidAmount)
    } else if sum_amounts(locks.drop_last()) + locks.last().amount > i128::MAX {
        Some(ComplianceModuleError::MathOverflow)
    } else {
        None
    }
}

/// What spending `amount` of `wallet`'s `balance` does: only the part of
/// the balance no lock covers, plus expired locks (consumed oldest first),
/// may be spent.
pub open spec fn debit_unlocked_post(
    pre: &InitialLockupPeriod,
    post: &InitialLockupPeriod,
    token: Address,
    wallet: Address,
    balance: i128,
    amount: i128,
    now: u32,
    r: Result<(), ComplianceModuleError>,
) -> bool {
    let total = pre.total_of(token, wallet);
    let free = free_portion(balance as int, total);
    let (rem, left) = consume_expired(pre.locks_of(token, wallet), now, amount - free);
    if amount <= free {
        r is Ok && *post == *pre
    } else if left > 0 {
        r == Err::<(), ComplianceModuleError>(ComplianceModuleError::InsufficientUnlockedBalance)
            && *post == *pre
    } else {
        &&& r is Ok
        &&& post.locks_of(token, wallet) == rem
        &&& post.total_of(token, wallet) == total - (amount - free)
        &&& post.same_except(pre, token, wallet, wallet)
    }
}

/// What a forced (seizing) debit of `amount` does: the part of `amount` not
/// covered by the unlocked balance consumes locks oldest first, expired or
/// not; a shortfall of locks is tolerated.
pub open spec fn debit_forced_post(
    pre: &InitialLockupPeriod,
    post: &InitialLockupPeriod,
    token: Address,
    wallet: Address,
    balance: i128,
    amount: i128,
) -> bool {
    let total = pre.total_of(token, wallet);
    let free = free_portion(balance as int, total);
    let (rem, moved, _) = consume_forced(pre.locks_of(token, wallet), amount - free);
    if total <= 0 || amount <= free {
        *post == *pre
    } else {
        &&& post.locks_of(token, wallet) == rem
        &&& post.total_of(token, wallet) == total - sum_amounts(moved)
        &&& post.same_except(pre, token, wallet, wallet)
    }
}

/// What a recovery of `amount` from `from` to `to` does: the locks a forced
/// debit would consume from `from` move, with their release ledgers, to the
/// end of `to`'s schedule.
pub open spec fn migrate_locks_post(
    pre: &InitialLockupPeriod,
    post: &InitialLockupPeriod,
    token: Address,
    from: Address,
    to: Address,
    balance: i128,
    amount: i128,
    r: Result<(), ComplianceModuleError>,
) -> bool {
    let total = pre.total_of(token, from);
    let free = free_portion(balance as int, total);
    let (rem, moved, _) = consume_forced(pre.locks_of(token, from), amount - free);
    let consumed = sum_amounts(moved);
    let base_locks = if to == from {
        rem
    } else {
        pre.locks_of(token, to)
    };
    let base_total = if to == from {
        total - consumed
    } else {
        pre.total_of(token, to)
    };
    if total == 0 || amount <= free {
        r is Ok && *post == *pre
    } else if base_total + consumed > i128::MAX {
        r == Err::<(), ComplianceModuleError>(ComplianceModuleError::MathOverflow) && *post == *pre
    } else {
        &&& r is Ok
        &&& post.locks_of(token, to) == base_locks + moved
        &&& post.total_of(token, to) == base_total + consumed
        &&& to != from ==> post.locks_of(token, from) == rem && post.total_of(token, from) == total
            - consumed
        &&& post.same_except(pre, token, from, to)
    }
}

// ################## QUERY STATE ##################

/// Returns the lockup period of `token` (0 when unset).
pub fn get_lockup_period(s: &InitialLockupPeriod, token: Address) -> (r: u32)
    ensures
        r == s.period_of(token),
{
    match s.periods.get(&token) {
        Some(p) => *p,
        None => 0,
    }
}

/// Returns the lock schedule of `wallet` for `token`.
pub fn get_locked_details(s: &InitialLockupPeriod, token: Address, wallet: Address) -> (r:
    LockedDetails)
    requires
        s.wf(),
    ensures
        r.total_locked == s.total_of(token, wallet),
        r.locks@ == s.locks_of(token, wallet),
        schedule_wf(r.total_locked as int, r.locks@),
{
    proof {
        lemma_schedule_wf(s, token, wallet);
    }
    s.load(token, wallet)
}

/// In a well-formed state every wallet's lock amounts are non-negative and
/// its total locked amount is their sum.
pub proof fn lemma_schedule_wf(s: &InitialLockupPeriod, token: Address, wallet: Address)
    requires
        s.wf(),
    ensures
        schedule_wf(s.total_of(token, wallet), s.locks_of(token, wallet)),
{
    if s.details@.contains_key(pair(token, wallet)) {
        assert(schedule_wf(
            s.details@[pair(token, wallet)].total_locked as int,
            s.details@[pair(token, wallet)].locks@,
        ));
    } else {
        assert(s.locks_of(token, wallet) =~= Seq::<LockedTokens>::empty());
    }
}

/// Returns the amount of `wallet`'s tokens still locked at ledger `now`.
pub fn get_locked_amount(s: &InitialLockupPeriod, token: Address, wallet: Address, now: u32) -> (r:
    i128)
    requires
        s.wf(),
    ensures
        r == s.total_of(token, wallet) - expired_sum(s.locks_of(token, wallet), now),
        r == sum_amounts(unexpired(s.locks_of(token, wallet), now)),
        r >= 0,
{
    let d = s.load(token, wallet);
    proof {
        lemma_unexpired(d.locks@, now);
    }
    let expired = expired_amount(&d.locks, now);
    d.total_locked - expired
}

/// Returns whether the preset phase of `token` is finalized.
pub fn is_preset_completed(s: &InitialLockupPeriod, token: Address) -> (r: bool)
    ensures
        r == s.preset_done(token),
{
    s.preset_completed.contains(&token)
}

// ################## CHANGE STATE ##################

/// Sets the lockup period of `token`, in ledgers.
pub fn set_lockup_period(s: &mut InitialLockupPeriod, token: Address, period: u32)
    requires
        old(s).wf(),
    ensures
        final(s).wf(),
        final(s).period_of(token) == period,
        forall|t: Address| t != token ==> #[trigger] final(s).period_of(t) == old(s).period_of(t),
        forall|t: Address| #[trigger] final(s).preset_done(t) == old(s).preset_done(t),
        forall|t: Address, w: Address|
            #[trigger] final(s).locks_of(t, w) == old(s).locks_of(t, w) && final(s).total_of(t, w)
                == old(s).total_of(t, w),
{
    s.periods.insert(token, period);
}

/// Seeds the lock schedule of `wallet` for `token` during the preset phase;
/// the schedule becomes `locks` and its total their sum.
///
/// # Errors
///
/// * [`ComplianceModuleError::PresetAlreadyCompleted`] - When the preset
///   phase of `token` is finalized.
/// * [`ComplianceModuleError::LockBoundExceeded`] - When `locks` holds more
///   than [`MAX_LOCKS`] entries.
/// * [`ComplianceModuleError::InvalidAmount`] - When a lock amount is
///   negative.
/// * [`ComplianceModuleError::MathOverflow`] - When the total does not fit.
pub fn preset_locks(
    s: &mut InitialLockupPeriod,
    token: Address,
    wallet: Address,
    locks: &Vec<LockedTokens>,
) -> (r: Result<(), ComplianceModuleError>)
    requires
        old(s).wf(),
    ensures
        final(s).wf(),
        old(s).preset_done(token) ==> r == Err::<(), ComplianceModuleError>(
            ComplianceModuleError::PresetAlreadyCompleted,
        ),
        !old(s).preset_done(token) && locks@.len() > MAX_LOCKS ==> r == Err::<
            (),
            ComplianceModuleError,
        >(ComplianceModuleError::LockBoundExceeded),
        !old(s).preset_done(token) && locks@.len() <= MAX_LOCKS && preset_error(locks@) is Some ==> r
            == Err::<(), ComplianceModuleError>(preset_error(locks@)->0),
        r is Ok <==> !old(s).preset_done(token) && locks@.len() <= MAX_LOCKS && preset_error(locks@) is None,
        r is Err ==> *final(s) == *old(s),
        r is Ok ==> {
            &&& final(s).locks_of(token, wallet) == locks@
            &&& final(s).total_of(token, wallet) == sum_amounts(locks@)
            &&& final(s).same_except(old(s), token, wallet, wallet)
        },
{
    if s.preset_completed.contains(&token) {
        return Err(ComplianceModuleError::PresetAlreadyCompleted);
    }
    if locks.len() > MAX_LOCKS as usize {
        return Err(ComplianceModuleError::LockBoundExceeded);
    }
    let mut total: i128 = 0;
    let mut i: usize = 0;
    while i < locks.len()
        invariant
            i <= locks.len(),
            *s == *old(s),
            old(s).wf(),
            !old(s).preset_done(token),
            locks@.len() <= MAX_LOCKS,
            preset_error(locks@.take(i as int)) is None,
            total == sum_amounts(locks@.take(i as int)),
            amounts_non_negative(locks@.take(i as int)),
        decreases locks.len() - i,
    {
        proof {
            assert(locks@.take(i + 1).drop_last() =~= locks@.take(i as int));
            assert(locks@.take(i + 1).last() == locks@[i as int]);
        }
        let lock = locks[i];
        if lock.amount < 0 {
            proof {
                lemma_preset_error_extends(locks@, i as int + 1);
            }
            return Err(ComplianceModuleError::InvalidAmount);
        }
        if total > i128::MAX - lock.amount {
            proof {
                lemma_preset_error_extends(locks@, i as int + 1);
            }
            return Err(ComplianceModuleError::MathOverflow);
        }
        total = total + lock.amount;
        proof {
            assert forall|j: int| 0 <= j < i + 1 implies #[trigger] locks@.take(i + 1)[j].amount
                >= 0 by {
                if j < i {
                    assert(locks@.take(i + 1)[j] == locks@.take(i as int)[j]);
                }
            }
        }
        i = i + 1;
    }
    assert(locks@.take(locks@.len() as int) =~= locks@);
    let d = LockedDetails { total_locked: total, locks: copy_locks(locks) };
    s.store(token, wallet, d);
    Ok(())
}

/// Once the preset of a prefix fails, the preset of the whole list fails the
/// same way.
proof fn lemma_preset_error_extends(locks: Seq<LockedTokens>, i: int)
    requires
        0 <= i <= locks.len(),
        preset_error(locks.take(i)) is Some,
    ensures
        preset_error(locks) == preset_error(locks.take(i)),
    decreases locks.len() - i,
{
    if i < locks.len() {
        assert(locks.take(i + 1).drop_last() =~= locks.take(i));
        lemma_preset_error_extends(locks, i + 1);
    } else {
        assert(locks.take(i) =~= locks);
    }
}

/// Finalizes the preset phase of `token`.
pub fn mark_preset_completed(s: &mut InitialLockupPeriod, token: Address)
    requires
        old(s).wf(),
    ensures
        final(s).wf(),
        final(s).preset_done(token),
        forall|t: Address| t != token ==> #[trigger] final(s).preset_done(t) == old(s).preset_done(t),
        forall|t: Address| #[trigger] final(s).period_of(t) == old(s).period_of(t),
        forall|t: Address, w: Address|
            #[trigger] final(s).locks_of(t, w) == old(s).locks_of(t, w) && final(s).total_of(t, w)
                == old(s).total_of(t, w),
{
    s.preset_completed.insert(token);
}

/// Replaces the lock schedule of `wallet` for `token`.
pub fn set_locked_details(
    s: &mut InitialLockupPeriod,
    token: Address,
    wallet: Address,
    details: &LockedDetails,
)
    requires
        old(s).wf(),
        schedule_wf(details.total_locked as int, details.locks@),
    ensures
        final(s).wf(),
        final(s).locks_of(token, wallet) == details.locks@,
        final(s).total_of(token, wallet) == details.total_locked,
        final(s).same_except(old(s), token, wallet, wallet),
{
    let d = LockedDetails { total_locked: details.total_locked, locks: copy_locks(&details.locks) };
    s.store(token, wallet, d);
}

/// Spends `amount` of `wallet`'s `balance`: the part past the unlocked
/// portion must be covered by expired locks, which are consumed oldest
/// first.
///
/// # Errors
///
/// * [`ComplianceModuleError::InsufficientUnlockedBalance`] - When the
///   expired locks cannot cover it (this includes spending past the balance).
pub fn debit_unlocked(
    s: &mut InitialLockupPeriod,
    token: Address,
    wallet: Address,
    balance: i128,
    amount: i128,
    now: u32,
) -> (r: Result<(), ComplianceModuleError>)
    requires
        old(s).wf(),
        i128::MIN <= balance - old(s).total_of(token, wallet),
    ensures
        final(s).wf(),
        debit_unlocked_post(old(s), final(s), token, wallet, balance, amount, now, r),
{
    let details = s.load(token, wallet);
    let diff = balance - details.total_locked;
    let free: i128 = if diff > 0 {
        diff
    } else {
        0
    };
    if amount > free {
        match consume_expired_locks(&details, amount - free, now) {
            Ok(next) => s.store(token, wallet, next),
            Err(e) => {
                return Err(e);
            },
        }
    }
    Ok(())
}

/// Forcibly debits `amount` from `wallet`: the part past the unlocked
/// portion consumes locks oldest first, whether or not they expired, and a
/// shortfall of locks is tolerated.
pub fn debit_forced(
    s: &mut InitialLockupPeriod,
    token: Address,
    wallet: Address,
    balance: i128,
    amount: i128,
)
    requires
        old(s).wf(),
        i128::MIN <= balance - old(s).total_of(token, wallet),
    ensures
        final(s).wf(),
        debit_forced_post(old(s), final(s), token, wallet, balance, amount),
{
    let details = s.load(token, wallet);
    if details.total_locked > 0 {
        let diff = balance - details.total_locked;
        let free: i128 = if diff > 0 {
            diff
        } else {
            0
        };
        if amount > free {
            let (next, _consumed) = consume_locks_forced(&details, amount - free);
            s.store(token, wallet, next);
        }
    }
}

/// Moves the locks covering a recovered `amount` from `from` to `to`: the
/// locks a forced debit would consume from `from` are appended, with their
/// release ledgers, to `to`'s schedule.
///
/// # Errors
///
/// * [`ComplianceModuleError::MathOverflow`] - When `to`'s total would not
///   fit.
#[verifier::loop_isolation(false)]
pub fn migrate_locks(
    s: &mut InitialLockupPeriod,
    token: Address,
    from: Address,
    to: Address,
    balance: i128,
    amount: i128,
) -> (r: Result<(), ComplianceModuleError>)
    requires
        old(s).wf(),
        i128::MIN <= balance - old(s).total_of(token, from),
    ensures
        final(s).wf(),
        migrate_locks_post(old(s), final(s), token, from, to, balance, amount, r),
{
    let src = s.load(token, from);
    if src.total_locked == 0 {
        return Ok(());
    }
    let diff = balance - src.total_locked;
    let free: i128 = if diff > 0 {
        diff
    } else {
        0
    };
    if amount <= free {
        return Ok(());
    }
    let (next_src, moved) = consume_locks_forced(&src, amount - free);
    let ghost spec_moved = consume_forced(old(s).locks_of(token, from), amount - free).1;
    assert(moved@ == spec_moved);
    assert(free == free_portion(balance as int, old(s).total_of(token, from)));
    assert(!(old(s).total_of(token, from) == 0 || amount <= free_portion(
        balance as int,
        old(s).total_of(token, from),
    )));
    let dst = if to == from {
        LockedDetails { total_locked: next_src.total_locked, locks: copy_locks(&next_src.locks) }
    } else {
        s.load(token, to)
    };
    assert(to != from ==> dst.total_locked == old(s).total_of(token, to));
    assert(to == from ==> dst.total_locked == src.total_locked - sum_amounts(spec_moved));
    let ghost base_locks = dst.locks@;
    let mut dst_total: i128 = dst.total_locked;
    let mut dst_locks = dst.locks;
    let mut i: usize = 0;
    while i < moved.len()
        invariant
            i <= moved.len(),
            *s == *old(s),
            old(s).wf(),
            moved@ == spec_moved,
            amounts_non_negative(moved@),
            amounts_non_negative(base_locks),
            dst.total_locked == sum_amounts(base_locks),
            dst_total == dst.total_locked + sum_amounts(moved@.take(i as int)),
            dst_locks@ == base_locks + moved@.take(i as int),
        decreases moved.len() - i,
    {
        proof {
            assert(moved@.take(i + 1).drop_last() =~= moved@.take(i as int));
            assert(moved@.take(i + 1).last() == moved@[i as int]);
        }
        let lock = moved[i];
        if dst_total > i128::MAX - lock.amount {
            proof {
                lemma_sum_prefix(moved@, i + 1);
                lemma_sum_prefix(moved@.skip(i + 1), 0);
                lemma_sum_concat(moved@.take(i + 1), moved@.skip(i + 1));
                assert(moved@.take(i + 1) + moved@.skip(i + 1) =~= moved@);
                assert(amounts_non_negative(moved@.skip(i + 1)));
                assert(dst.total_locked + sum_amounts(spec_moved) > i128::MAX);
            }
            return Err(ComplianceModuleError::MathOverflow);
        }
        dst_total = dst_total + lock.amount;
        dst_locks.push(lock);
        proof {
            assert(dst_locks@ =~= base_locks + moved@.take(i + 1));
        }
        i = i + 1;
    }
    assert(moved@.take(moved@.len() as int) =~= moved@);
    assert(dst_total == dst.total_locked + sum_amounts(spec_moved));
    proof {
        lemma_sum_concat(base_locks, moved@);
        assert forall|j: int| 0 <= j < dst_locks@.len() implies #[trigger] dst_locks@[j].amount
            >= 0 by {
            if j < base_locks.len() {
                assert(dst_locks@[j] == base_locks[j]);
            } else {
                assert(dst_locks@[j] == moved@[j - base_locks.len()]);
            }
        }
    }
    s.store(token, from, next_src);
    let ghost mid = *s;
    s.store(token, to, LockedDetails { total_locked: dst_total, locks: dst_locks });
    proof {
        lemma_same_except_chain(old(s), &mid, s, token, from, to);
        if to != from {
            assert(s.locks_of(token, from) == mid.locks_of(token, from));
            assert(s.total_of(token, from) == mid.total_of(token, from));
        }
    }
    Ok(())
}

/// Runs the transfer hook: rejects a transfer that would spend locked tokens
/// and consumes expired locks; a forced transfer consumes locks without
/// rejecting; a recovery moves the locks to the destination.
///
/// # Errors
///
/// * [`ComplianceModuleError::InvalidAmount`] - When `amount` is negative.
/// * see [`debit_unlocked`] and [`migrate_locks`].
pub fn on_transfer(
    s: &mut InitialLockupPeriod,
    from: Address,
    to: Address,
    balance: i128,
    amount: i128,
    kind: TransferKind,
    token: Address,
    now: u32,
) -> (r: Result<(), ComplianceModuleError>)
    requires
        old(s).wf(),
        i128::MIN <= balance - old(s).total_of(token, from),
    ensures
        final(s).wf(),
        amount < 0 ==> r == Err::<(), ComplianceModuleError>(ComplianceModuleError::InvalidAmount)
            && *final(s) == *old(s),
        amount >= 0 ==> match kind {
            TransferKind::Forced => r is Ok && debit_forced_post(
                old(s),
                final(s),
                token,
                from,
                balance,
                amount,
            ),
            TransferKind::Recovery => migrate_locks_post(
                old(s),
                final(s),
                token,
                from,
                to,
                balance,
                amount,
                r,
            ),
            _ => debit_unlocked_post(old(s), final(s), token, from, balance, amount, now, r),
        },
{
    if let Err(e) = require_non_negative_amount(amount) {
        return Err(e);
    }
    match kind {
        TransferKind::Forced => {
            debit_forced(s, token, from, balance, amount);
            Ok(())
        },
        TransferKind::Recovery => migrate_locks(s, token, from, to, balance, amount),
        _ => debit_unlocked(s, token, from, balance, amount, now),
    }
}

/// Runs the mint hook: when the token has a lockup period and `amount` is
/// positive, prunes `to`'s released locks and adds a lock of `amount`
/// releasing `period` ledgers after `now`.
///
/// # Errors
///
/// * [`ComplianceModuleError::InvalidAmount`] - When `amount` is negative.
/// * [`ComplianceModuleError::LockBoundExceeded`] - When `to` already holds
///   [`MAX_LOCKS`] active locks.
/// * [`ComplianceModuleError::MathOverflow`] - When the total does not fit.
pub fn on_created(
    s: &mut InitialLockupPeriod,
    to: Address,
    amount: i128,
    token: Address,
    now: u32,
) -> (r: Result<(), ComplianceModuleError>)
    requires
        old(s).wf(),
    ensures
        final(s).wf(),
        ({
            let period = old(s).period_of(token);
            let locks = old(s).locks_of(token, to);
            let kept = unexpired(locks, now);
            let kept_total = old(s).total_of(token, to) - expired_sum(locks, now);
            if amount < 0 {
                r == Err::<(), ComplianceModuleError>(ComplianceModuleError::InvalidAmount)
                    && *final(s) == *old(s)
            } else if period == 0 || amount == 0 {
                r is Ok && *final(s) == *old(s)
            } else if kept.len() >= MAX_LOCKS {
                r == Err::<(), ComplianceModuleError>(ComplianceModuleError::LockBoundExceeded)
                    && *final(s) == *old(s)
            } else if kept_total + amount > i128::MAX {
                r == Err::<(), ComplianceModuleError>(ComplianceModuleError::MathOverflow)
                    && *final(s) == *old(s)
            } else {
                &&& r is Ok
                &&& final(s).locks_of(token, to) == kept.push(
                    LockedTokens { amount, release_ledger: release_at(now, period) },
                )
                &&& final(s).total_of(token, to) == kept_total + amount
                &&& final(s).same_except(old(s), token, to, to)
            }
        }),
{
    if let Err(e) = require_non_negative_amount(amount) {
        return Err(e);
    }
    let period = get_lockup_period(s, token);
    if period > 0 && amount > 0 {
        let details = s.load(token, to);
        let mut pruned = prune_expired_locks(&details, now);
        if pruned.locks.len() >= MAX_LOCKS as usize {
            return Err(ComplianceModuleError::LockBoundExceeded);
        }
        if pruned.total_locked > i128::MAX - amount {
            return Err(ComplianceModuleError::MathOverflow);
        }
        let ghost kept = pruned.locks@;
        let lock = LockedTokens { amount, release_ledger: now.saturating_add(period) };
        pruned.locks.push(lock);
        pruned.total_locked = pruned.total_locked + amount;
        proof {
            lemma_sum_push(kept, lock);
            assert forall|j: int| 0 <= j < pruned.locks@.len() implies #[trigger] pruned.locks@[j].amount
                >= 0 by {
                if j < kept.len() {
                    assert(pruned.locks@[j] == kept[j]);
                }
            }
        }
        s.store(token, to, pruned);
    }
    Ok(())
}

/// Runs the burn hook: a burn may only spend unlocked tokens, as
/// [`debit_unlocked`] describes.
///
/// # Errors
///
/// * [`ComplianceModuleError::InvalidAmount`] - When `amount` is negative.
/// * see [`debit_unlocked`].
pub fn on_destroyed(
    s: &mut InitialLockupPeriod,
    from: Address,
    balance: i128,
    amount: i128,
    token: Address,
    now: u32,
) -> (r: Result<(), ComplianceModuleError>)
    requires
        old(s).wf(),
        i128::MIN <= balance - old(s).total_of(token, from),
    ensures
        final(s).wf(),
        amount < 0 ==> r == Err::<(), ComplianceModuleError>(ComplianceModuleError::InvalidAmount)
            && *final(s) == *old(s),
        amount >= 0 ==> debit_unlocked_post(old(s), final(s), token, from, balance, amount, now, r),
{
    if let Err(e) = require_non_negative_amount(amount) {
        return Err(e);
    }
    debit_unlocked(s, token, from, balance, amount, now)
}

/// What consuming expired locks leaves uncovered is exactly what exceeds
/// the expired amount.
proof fn lemma_consume_expired_left(locks: Seq<LockedTokens>, now: u32, need: int)
    requires
        amounts_non_negative(locks),
        need >= 0,
    ensures
        consume_expired(locks, now, need).1 == if need <= expired_sum(locks, now) {
            0
        } else {
            need - expired_sum(locks, now)
        },
    decreases locks.len(),
{
    if locks.len() > 0 {
        let pre = locks.drop_last();
        assert(amounts_non_negative(pre)) by {
            assert forall|i: int| 0 <= i < pre.len() implies #[trigger] pre[i].amount >= 0 by {
                assert(pre[i] == locks[i]);
            }
        }
        lemma_consume_expired_left(pre, now, need);
        assert(locks.last() == locks[locks.len() - 1]);
        lemma_unexpired(pre, now);
    }
}

/// A transfer that is neither forced nor a recovery, and goes through,
/// spends at most the part of the balance that no lock covers plus the
/// locks that have already expired: unexpired locks are never spent.
pub proof fn lemma_transfer_spends_only_unlocked(
    pre: &InitialLockupPeriod,
    post: &InitialLockupPeriod,
    token: Address,
    wallet: Address,
    balance: i128,
    amount: i128,
    now: u32,
    r: Result<(), ComplianceModuleError>,
)
    requires
        pre.wf(),
        debit_unlocked_post(pre, post, token, wallet, balance, amount, now, r),
        r is Ok,
    ensures
        amount <= free_portion(balance as int, pre.total_of(token, wallet)) + expired_sum(
            pre.locks_of(token, wallet),
            now,
        ),
{
    pre.lemma_wf_entry(token, wallet);
    lemma_unexpired(pre.locks_of(token, wallet), now);
    let free = free_portion(balance as int, pre.total_of(token, wallet));
    if amount > free {
        lemma_consume_expired_left(pre.locks_of(token, wallet), now, amount - free);
    }
}

/// A recovery that goes through moves locked tokens from one wallet to the
/// other without creating or destroying any: the two wallets' totals add up
/// to what they did before.
pub proof fn lemma_recovery_conserves_locked(
    pre: &InitialLockupPeriod,
    post: &InitialLockupPeriod,
    token: Address,
    from: Address,
    to: Address,
    balance: i128,
    amount: i128,
    r: Result<(), ComplianceModuleError>,
)
    requires
        pre.wf(),
        from != to,
        migrate_locks_post(pre, post, token, from, to, balance, amount, r),
        r is Ok,
    ensures
        post.total_of(token, from) + post.total_of(token, to) == pre.total_of(token, from)
            + pre.total_of(token, to),
{
}

/// A forced transfer never raises a wallet's locked total: it only
/// consumes locks.
pub proof fn lemma_forced_only_consumes(
    pre: &InitialLockupPeriod,
    post: &InitialLockupPeriod,
    token: Address,
    wallet: Address,
    balance: i128,
    amount: i128,
)
    requires
        pre.wf(),
        amount >= 0,
        debit_forced_post(pre, post, token, wallet, balance, amount),
    ensures
        0 <= post.total_of(token, wallet) <= pre.total_of(token, wallet),
{
    pre.lemma_wf_entry(token, wallet);
    let total = pre.total_of(token, wallet);
    let free = free_portion(balance as int, total);
    if total > 0 && amount > free {
        lemma_consume_forced(pre.locks_of(token, wallet), amount - free);
        let rem = consume_forced(pre.locks_of(token, wallet), amount - free).0;
        lemma_sum_prefix(rem, 0);
    }
}

} // verus!
