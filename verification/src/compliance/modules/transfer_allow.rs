//! Transfer allowlist: a transfer passes only when its sender or its
//! recipient is on the token's allowlist. Wallet addresses are checked
//! directly, without the identity registry. Forced and recovery transfers
//! are exempt, and mints and burns are not restricted.

use super::ComplianceModuleError;
use crate::common::{lemma_pair_injective, pair, pair_key, Address};
use crate::compliance::TransferKind;
use std::collections::HashSet;
use std::vec::Vec;
use vstd::prelude::*;

verus! {

broadcast use {vstd::std_specs::hash::group_hash_axioms, vstd::seq_lib::lemma_seq_contains_after_push};

/// The module's state: the allowed `(token, user)` pairs.
pub struct TransferAllow {
    allowed: HashSet<u128>,
}

impl TransferAllow {
    /// Whether `user` is on the allowlist of `token`.
    pub closed spec fn allows(&self, token: Address, user: Address) -> bool {
        self.allowed@.contains(pair(token, user))
    }

    /// An empty allowlist for every token.
    pub fn new() -> (s: Self)
        ensures
            forall|t: Address, u: Address| !#[trigger] s.allows(t, u),
    {
        TransferAllow { allowed: HashSet::new() }
    }
}

/// Returns whether `user` is on the allowlist of `token`.
pub fn is_user_allowed(s: &TransferAllow, token: Address, user: Address) -> (r: bool)
    ensures
        r == s.allows(token, user),
{
    s.allowed.contains(&pair_key(token, user))
}

/// Rejects a transfer when neither `from` nor `to` is on the allowlist of
/// `token`. Forced and recovery transfers are exempt.
///
/// # Errors
///
/// * [`ComplianceModuleError::UserNotAllowed`] - When neither party is
///   allowed and the transfer is neither forced nor a recovery.
pub fn on_transfer(s: &TransferAllow, from: Address, to: Address, kind: TransferKind, token: Address) -> (r:
    Result<(), ComplianceModuleError>)
    ensures
        r is Ok <==> (kind == TransferKind::Forced || kind == TransferKind::Recovery || s.allows(
            token,
            from,
        ) || s.allows(token, to)),
        r is Err ==> r == Err::<(), ComplianceModuleError>(ComplianceModuleError::UserNotAllowed),
{
    if kind == TransferKind::Forced || kind == TransferKind::Recovery {
        return Ok(());
    }
    if !is_user_allowed(s, token, from) && !is_user_allowed(s, token, to) {
        return Err(ComplianceModuleError::UserNotAllowed);
    }
    Ok(())
}

/// Records `user` as allowed for `token`.
pub fn set_user_allowed(s: &mut TransferAllow, token: Address, user: Address)
    ensures
        final(s).allows(token, user),
        forall|t: Address, c: Address|
            !(t == token && c == user) ==> #[trigger] final(s).allows(t, c) == old(s).allows(t, c),
{
    s.allowed.insert(pair_key(token, user));
    proof {
        assert forall|t: Address, c: Address| !(t == token && c == user) implies #[trigger] final(s).allows(t, c)
            == old(s).allows(t, c) by {
            lemma_pair_injective(t, c as u64, token, user);
        }
    }
}

/// Removes `user` from the allowlist of `token`.
pub fn remove_user_allowed(s: &mut TransferAllow, token: Address, user: Address)
    ensures
        !final(s).allows(token, user),
        forall|t: Address, c: Address|
            !(t == token && c == user) ==> #[trigger] final(s).allows(t, c) == old(s).allows(t, c),
{
    s.allowed.remove(&pair_key(token, user));
    proof {
        assert forall|t: Address, c: Address| !(t == token && c == user) implies #[trigger] final(s).allows(t, c)
            == old(s).allows(t, c) by {
            lemma_pair_injective(t, c as u64, token, user);
        }
    }
}

/// Adds `user` to the allowlist of `token`; returns whether it was newly
/// added (an already allowed user is left as is and reported `false`,
/// and no `UserAllowed` event is due for it).
pub fn allow_user(s: &mut TransferAllow, token: Address, user: Address) -> (added: bool)
    ensures
        added == !old(s).allows(token, user),
        final(s).allows(token, user),
        forall|t: Address, c: Address|
            !(t == token && c == user) ==> #[trigger] final(s).allows(t, c) == old(s).allows(t, c),
{
    if !is_user_allowed(s, token, user) {
        set_user_allowed(s, token, user);
        true
    } else {
        false
    }
}

/// Removes `user` from the allowlist of `token`; returns whether it was
/// allowed (a user that is not allowed is reported `false`, and no
/// unallow event is due for it).
pub fn disallow_user(s: &mut TransferAllow, token: Address, user: Address) -> (removed: bool)
    ensures
        removed == old(s).allows(token, user),
        !final(s).allows(token, user),
        forall|t: Address, c: Address|
            !(t == token && c == user) ==> #[trigger] final(s).allows(t, c) == old(s).allows(t, c),
{
    if is_user_allowed(s, token, user) {
        remove_user_allowed(s, token, user);
        true
    } else {
        false
    }
}

/// Adds every user of `users` to the allowlist of `token`; returns
/// the users that were newly added, each once, in the order they were
/// added.
pub fn batch_allow_users(s: &mut TransferAllow, token: Address, users: &Vec<Address>) -> (added:
    Vec<Address>)
    ensures
        forall|c: Address|
            #[trigger] final(s).allows(token, c) == (old(s).allows(token, c) || users@.contains(c)),
        forall|t: Address, c: Address| t != token ==> #[trigger] final(s).allows(t, c) == old(s).allows(t, c),
        forall|c: Address|
            #[trigger] added@.contains(c) == (users@.contains(c) && !old(s).allows(token, c)),
        added@.no_duplicates(),
{
    let mut added: Vec<Address> = Vec::new();
    let mut i: usize = 0;
    while i < users.len()
        invariant
            i <= users.len(),
            forall|c: Address|
                #[trigger] s.allows(token, c) == (old(s).allows(token, c) || users@.take(
                    i as int,
                ).contains(c)),
            forall|t: Address, c: Address| t != token ==> #[trigger] s.allows(t, c) == old(s).allows(t, c),
            forall|c: Address|
                #[trigger] added@.contains(c) == (users@.take(i as int).contains(c) && !old(
                    s,
                ).allows(token, c)),
            added@.no_duplicates(),
        decreases users.len() - i,
    {
        let c = users[i];
        let ghost before = added@;
        let newly = allow_user(s, token, c);
        if newly {
            added.push(c);
        }
        proof {
            assert(users@.take(i + 1) =~= users@.take(i as int).push(c));
            assert forall|x: Address| #[trigger] added@.contains(x) == (users@.take(i + 1).contains(x)
                && !old(s).allows(token, x)) by {
                if added@.contains(x) && x != c {
                    let k = choose|k: int| 0 <= k < added@.len() && added@[k] == x;
                    assert(before[k] == x);
                }
                if x != c && before.contains(x) {
                    let k = choose|k: int| 0 <= k < before.len() && before[k] == x;
                    assert(added@[k] == x);
                }
                if x == c && newly {
                    assert(added@[added@.len() - 1] == c);
                }
            }
            if newly {
                assert(!before.contains(c));
                assert forall|a: int, b: int| 0 <= a < b < added@.len() implies added@[a] != added@[b] by {
                    if b == added@.len() - 1 {
                        assert(before[a] == added@[a]);
                    }
                }
            }
        }
        i = i + 1;
    }
    assert(users@.take(users@.len() as int) =~= users@);
    added
}

/// Removes every user of `users` from the allowlist of `token`;
/// returns the users that were removed, each once, in the order they
/// were removed.
pub fn batch_disallow_users(s: &mut TransferAllow, token: Address, users: &Vec<Address>) -> (removed:
    Vec<Address>)
    ensures
        forall|c: Address|
            #[trigger] final(s).allows(token, c) == (old(s).allows(token, c) && !users@.contains(c)),
        forall|t: Address, c: Address| t != token ==> #[trigger] final(s).allows(t, c) == old(s).allows(t, c),
        forall|c: Address|
            #[trigger] removed@.contains(c) == (users@.contains(c) && old(s).allows(token, c)),
        removed@.no_duplicates(),
{
    let mut removed: Vec<Address> = Vec::new();
    let mut i: usize = 0;
    while i < users.len()
        invariant
            i <= users.len(),
            forall|c: Address|
                #[trigger] s.allows(token, c) == (old(s).allows(token, c) && !users@.take(
                    i as int,
                ).contains(c)),
            forall|t: Address, c: Address| t != token ==> #[trigger] s.allows(t, c) == old(s).allows(t, c),
            forall|c: Address|
                #[trigger] removed@.contains(c) == (users@.take(i as int).contains(c) && old(
                    s,
                ).allows(token, c)),
            removed@.no_duplicates(),
        decreases users.len() - i,
    {
        let c = users[i];
        let ghost before = removed@;
        let was = disallow_user(s, token, c);
        if was {
            removed.push(c);
        }
        proof {
            assert(users@.take(i + 1) =~= users@.take(i as int).push(c));
            assert forall|x: Address| #[trigger] removed@.contains(x) == (users@.take(i + 1).contains(x)
                && old(s).allows(token, x)) by {
                if removed@.contains(x) && x != c {
                    let k = choose|k: int| 0 <= k < removed@.len() && removed@[k] == x;
                    assert(before[k] == x);
                }
                if x != c && before.contains(x) {
                    let k = choose|k: int| 0 <= k < before.len() && before[k] == x;
                    assert(removed@[k] == x);
                }
                if x == c && was {
                    assert(removed@[removed@.len() - 1] == c);
                }
            }
            if was {
                assert(!before.contains(c));
                assert forall|a: int, b: int| 0 <= a < b < removed@.len() implies removed@[a] != removed@[b] by {
                    if b == removed@.len() - 1 {
                        assert(before[a] == removed@[a]);
                    }
                }
            }
        }
        i = i + 1;
    }
    assert(users@.take(users@.len() as int) =~= users@);
    removed
}

} // verus!
