//! The modular compliance registry: for each hook, the ordered list of
//! compliance modules registered for it (no module twice, at most
//! [`MAX_MODULES`]), and the tokens bound to the registry.
//!
//! A hook call is dispatched to every module registered for the hook, in
//! registration order: [`transferred`], [`created`] and [`destroyed`] give
//! the calls to make, each module with the operation's arguments, and
//! [`next_step`] decides, from the outcomes so far, which call comes next
//! and when a refusal ends the dispatch, reverting the whole token
//! operation.

use super::{AccountSnapshot, ComplianceError, ComplianceHook, TransferKind, MAX_MODULES};
use crate::common::Address;
use std::vec::Vec;
use vstd::prelude::*;

verus! {

/// The registry's state.
pub struct ComplianceRegistry {
    transferred: Vec<Address>,
    created: Vec<Address>,
    destroyed: Vec<Address>,
    tokens: Vec<Address>,
}

/// A list holds no address twice.
pub open spec fn distinct(s: Seq<Address>) -> bool {
    forall|i: int, j: int| 0 <= i < j < s.len() ==> s[i] != s[j]
}

impl ComplianceRegistry {
    /// The modules registered for `hook`, in registration order.
    pub closed spec fn modules_of(&self, hook: ComplianceHook) -> Seq<Address> {
        match hook {
            ComplianceHook::Transferred => self.transferred@,
            ComplianceHook::Created => self.created@,
            ComplianceHook::Destroyed => self.destroyed@,
        }
    }

    /// The tokens bound to this registry.
    pub closed spec fn tokens_of(&self) -> Seq<Address> {
        self.tokens@
    }

    /// No module is registered twice for a hook, and no hook has more than
    /// [`MAX_MODULES`] modules.
    pub open spec fn wf(&self) -> bool {
        &&& forall|h: ComplianceHook|
            distinct(#[trigger] self.modules_of(h)) && self.modules_of(h).len() <= MAX_MODULES
        &&& distinct(self.tokens_of())
    }

    /// An empty registry.
    pub fn new() -> (s: Self)
        ensures
            s.wf(),
            forall|h: ComplianceHook| #[trigger] s.modules_of(h) == Seq::<Address>::empty(),
            s.tokens_of() == Seq::<Address>::empty(),
    {
        ComplianceRegistry {
            transferred: Vec::new(),
            created: Vec::new(),
            destroyed: Vec::new(),
            tokens: Vec::new(),
        }
    }

    fn list(&self, hook: ComplianceHook) -> (l: &Vec<Address>)
        ensures
            l@ == self.modules_of(hook),
    {
        match hook {
            ComplianceHook::Transferred => &self.transferred,
            ComplianceHook::Created => &self.created,
            ComplianceHook::Destroyed => &self.destroyed,
        }
    }

    fn set_list(&mut self, hook: ComplianceHook, l: Vec<Address>)
        ensures
            final(self).modules_of(hook) == l@,
            forall|h: ComplianceHook| h != hook ==> #[trigger] final(self).modules_of(h) == old(self).modules_of(h),
            final(self).tokens_of() == old(self).tokens_of(),
    {
        match hook {
            ComplianceHook::Transferred => self.transferred = l,
            ComplianceHook::Created => self.created = l,
            ComplianceHook::Destroyed => self.destroyed = l,
        }
    }
}

/// The index of `x` in `v`, if it occurs.
fn position(v: &Vec<Address>, x: Address) -> (r: Option<usize>)
    ensures
        r matches Some(i) ==> i < v@.len() && v@[i as int] == x && forall|j: int|
            0 <= j < i ==> v@[j] != x,
        r is None ==> !v@.contains(x),
{
    let mut i: usize = 0;
    while i < v.len()
        invariant
            i <= v.len(),
            forall|j: int| 0 <= j < i ==> v@[j] != x,
        decreases v.len() - i,
    {
        if v[i] == x {
            return Some(i);
        }
        i = i + 1;
    }
    None
}

fn copy_addresses(v: &Vec<Address>) -> (out: Vec<Address>)
    ensures
        out@ == v@,
{
    let mut out: Vec<Address> = Vec::new();
    let mut i: usize = 0;
    while i < v.len()
        invariant
            i <= v.len(),
            out@ == v@.take(i as int),
        decreases v.len() - i,
    {
        out.push(v[i]);
        proof {
            assert(v@.take(i + 1) =~= v@.take(i as int).push(v@[i as int]));
        }
        i = i + 1;
    }
    assert(v@.take(v@.len() as int) =~= v@);
    out
}

/// Returns the modules registered for `hook`, in registration order.
pub fn get_modules_for_hook(s: &ComplianceRegistry, hook: ComplianceHook) -> (r: Vec<Address>)
    ensures
        r@ == s.modules_of(hook),
{
    copy_addresses(s.list(hook))
}

/// Returns whether `module` is registered for `hook`.
pub fn is_module_registered(s: &ComplianceRegistry, hook: ComplianceHook, module: Address) -> (r:
    bool)
    ensures
        r == s.modules_of(hook).contains(module),
{
    position(s.list(hook), module).is_some()
}

/// Registers `module` for `hook`, after the modules already registered.
///
/// # Errors
///
/// * [`ComplianceError::ModuleAlreadyRegistered`] - When `module` is already
///   registered for `hook`.
/// * [`ComplianceError::ModuleBoundExceeded`] - When `hook` already has
///   [`MAX_MODULES`] modules.
pub fn add_module_to(s: &mut ComplianceRegistry, hook: ComplianceHook, module: Address) -> (r:
    Result<(), ComplianceError>)
    requires
        old(s).wf(),
    ensures
        final(s).wf(),
        old(s).modules_of(hook).contains(module) ==> r == Err::<(), ComplianceError>(
            ComplianceError::ModuleAlreadyRegistered,
        ),
        !old(s).modules_of(hook).contains(module) && old(s).modules_of(hook).len() >= MAX_MODULES
            ==> r == Err::<(), ComplianceError>(ComplianceError::ModuleBoundExceeded),
        r is Ok <==> !old(s).modules_of(hook).contains(module) && old(s).modules_of(hook).len()
            < MAX_MODULES,
        r is Err ==> *final(s) == *old(s),
        r is Ok ==> final(s).modules_of(hook) == old(s).modules_of(hook).push(module),
        forall|h: ComplianceHook| h != hook ==> #[trigger] final(s).modules_of(h) == old(s).modules_of(h),
        final(s).tokens_of() == old(s).tokens_of(),
{
    let current = s.list(hook);
    if position(current, module).is_some() {
        return Err(ComplianceError::ModuleAlreadyRegistered);
    }
    if current.len() >= MAX_MODULES as usize {
        return Err(ComplianceError::ModuleBoundExceeded);
    }
    let mut next = copy_addresses(current);
    next.push(module);
    proof {
        let h0 = hook;
        assert(distinct(next@)) by {
            assert forall|i: int, j: int| 0 <= i < j < next@.len() implies next@[i] != next@[j] by {
                if j == next@.len() - 1 {
                    assert(old(s).modules_of(hook)[i] == next@[i]);
                    assert(old(s).modules_of(hook).contains(next@[i]));
                } else {
                    assert(distinct(old(s).modules_of(h0)));
                }
            }
        }
    }
    s.set_list(hook, next);
    proof {
        assert forall|h: ComplianceHook| distinct(#[trigger] final(s).modules_of(h)) && final(s).modules_of(h).len()
            <= MAX_MODULES by {
            if h != hook {
                assert(final(s).modules_of(h) == old(s).modules_of(h));
            }
        }
    }
    Ok(())
}

/// Deregisters `module` from `hook`; the other modules keep their order.
///
/// # Errors
///
/// * [`ComplianceError::ModuleNotRegistered`] - When `module` is not
///   registered for `hook`.
pub fn remove_module_from(s: &mut ComplianceRegistry, hook: ComplianceHook, module: Address) -> (r:
    Result<(), ComplianceError>)
    requires
        old(s).wf(),
    ensures
        final(s).wf(),
        r is Ok <==> old(s).modules_of(hook).contains(module),
        r is Err ==> r == Err::<(), ComplianceError>(ComplianceError::ModuleNotRegistered) && *final(s) == *old(s),
        r is Ok ==> exists|i: int|
            0 <= i < old(s).modules_of(hook).len() && old(s).modules_of(hook)[i] == module
                && final(s).modules_of(hook) == old(s).modules_of(hook).remove(i),
        r is Ok ==> !final(s).modules_of(hook).contains(module),
        forall|h: ComplianceHook| h != hook ==> #[trigger] final(s).modules_of(h) == old(s).modules_of(h),
        final(s).tokens_of() == old(s).tokens_of(),
{
    let current = s.list(hook);
    let index = match position(current, module) {
        Some(i) => i,
        None => {
            return Err(ComplianceError::ModuleNotRegistered);
        },
    };
    let mut next = copy_addresses(current);
    next.remove(index);
    let ghost old_list = old(s).modules_of(hook);
    proof {
        assert(distinct(old_list));
        assert(distinct(next@)) by {
            assert forall|i: int, j: int| 0 <= i < j < next@.len() implies next@[i] != next@[j] by {
                let oi = if i < index { i } else { i + 1 };
                let oj = if j < index { j } else { j + 1 };
                assert(next@[i] == old_list[oi]);
                assert(next@[j] == old_list[oj]);
            }
        }
        assert(!next@.contains(module)) by {
            if next@.contains(module) {
                let k = choose|k: int| 0 <= k < next@.len() && next@[k] == module;
                let ok = if k < index { k } else { k + 1 };
                assert(next@[k] == old_list[ok]);
                assert(old_list[index as int] == module);
            }
        }
    }
    s.set_list(hook, next);
    proof {
        assert forall|h: ComplianceHook| distinct(#[trigger] final(s).modules_of(h)) && final(s).modules_of(h).len()
            <= MAX_MODULES by {
            if h != hook {
                assert(final(s).modules_of(h) == old(s).modules_of(h));
            }
        }
        assert(old_list[index as int] == module);
    }
    Ok(())
}

/// Returns the tokens bound to the registry.
pub fn linked_tokens(s: &ComplianceRegistry) -> (r: Vec<Address>)
    ensures
        r@ == s.tokens_of(),
{
    copy_addresses(&s.tokens)
}

/// Binds `token` to the registry (no effect when it is already bound).
pub fn bind_token(s: &mut ComplianceRegistry, token: Address)
    requires
        old(s).wf(),
    ensures
        final(s).wf(),
        old(s).tokens_of().contains(token) ==> final(s).tokens_of() == old(s).tokens_of(),
        !old(s).tokens_of().contains(token) ==> final(s).tokens_of() == old(s).tokens_of().push(
            token,
        ),
        forall|h: ComplianceHook| #[trigger] final(s).modules_of(h) == old(s).modules_of(h),
{
    if position(&s.tokens, token).is_none() {
        let ghost before = s.tokens@;
        s.tokens.push(token);
        proof {
            assert forall|i: int, j: int| 0 <= i < j < s.tokens@.len() implies s.tokens@[i] != s.tokens@[j] by {
                if j == s.tokens@.len() - 1 {
                    assert(before[i] == s.tokens@[i]);
                    assert(before.contains(before[i]));
                } else {
                    assert(before[i] == s.tokens@[i]);
                    assert(before[j] == s.tokens@[j]);
                }
            }
        }
    }
    proof {
        assert forall|h: ComplianceHook| distinct(#[trigger] s.modules_of(h)) && s.modules_of(h).len()
            <= MAX_MODULES by {
            assert(s.modules_of(h) == old(s).modules_of(h));
        }
    }
}

/// Unbinds `token` from the registry (no effect when it is not bound).
pub fn unbind_token(s: &mut ComplianceRegistry, token: Address)
    requires
        old(s).wf(),
    ensures
        final(s).wf(),
        !final(s).tokens_of().contains(token),
        forall|t: Address| t != token ==> (#[trigger] final(s).tokens_of().contains(t) <==> old(s).tokens_of().contains(t)),
        forall|h: ComplianceHook| #[trigger] final(s).modules_of(h) == old(s).modules_of(h),
{
    if let Some(index) = position(&s.tokens, token) {
        let ghost before = s.tokens@;
        s.tokens.remove(index);
        proof {
            assert forall|i: int, j: int| 0 <= i < j < s.tokens@.len() implies s.tokens@[i] != s.tokens@[j] by {
                let oi = if i < index { i } else { i + 1 };
                let oj = if j < index { j } else { j + 1 };
                assert(s.tokens@[i] == before[oi]);
                assert(s.tokens@[j] == before[oj]);
            }
            assert forall|t: Address| t != token implies (#[trigger] s.tokens@.contains(t) <==> before.contains(t)) by {
                if before.contains(t) {
                    let k = choose|k: int| 0 <= k < before.len() && before[k] == t;
                    assert(k != index);
                    let nk = if k < index { k } else { k - 1 };
                    assert(s.tokens@[nk] == t);
                }
                if s.tokens@.contains(t) {
                    let k = choose|k: int| 0 <= k < s.tokens@.len() && s.tokens@[k] == t;
                    let ok = if k < index { k } else { k + 1 };
                    assert(s.tokens@[k] == before[ok]);
                }
            }
            if s.tokens@.contains(token) {
                let k = choose|k: int| 0 <= k < s.tokens@.len() && s.tokens@[k] == token;
                let ok = if k < index { k } else { k + 1 };
                assert(s.tokens@[k] == before[ok]);
                assert(before[index as int] == token);
            }
        }
    }
    proof {
        assert forall|h: ComplianceHook| distinct(#[trigger] s.modules_of(h)) && s.modules_of(h).len()
            <= MAX_MODULES by {
            assert(s.modules_of(h) == old(s).modules_of(h));
        }
    }
}

/// One call of a module's hook, with the arguments the module receives.
#[derive(Clone, Copy, Debug, PartialEq, Eq, Structural)]
pub enum HookCall {
    /// `on_transfer(from, to, amount, kind, token)`.
    OnTransfer { from: AccountSnapshot, to: AccountSnapshot, amount: i128, kind: TransferKind, token: Address },
    /// `on_created(to, amount, token)`.
    OnCreated { to: AccountSnapshot, amount: i128, token: Address },
    /// `on_destroyed(from, amount, token)`.
    OnDestroyed { from: AccountSnapshot, amount: i128, token: Address },
}

/// The calls that dispatching `call` to the modules `modules` makes: one
/// per module, in order, each with the same arguments.
pub open spec fn calls_to(modules: Seq<Address>, call: HookCall) -> Seq<(Address, HookCall)> {
    Seq::new(modules.len(), |i: int| (modules[i], call))
}

/// Pairs each module of `modules` with `call`.
fn plan(modules: &Vec<Address>, call: HookCall) -> (r: Vec<(Address, HookCall)>)
    ensures
        r@ == calls_to(modules@, call),
{
    let mut out: Vec<(Address, HookCall)> = Vec::new();
    let mut i: usize = 0;
    while i < modules.len()
        invariant
            i <= modules.len(),
            out@ == calls_to(modules@.take(i as int), call),
        decreases modules.len() - i,
    {
        out.push((modules[i], call));
        i = i + 1;
        assert(out@ =~= calls_to(modules@.take(i as int), call));
    }
    assert(modules@.take(modules@.len() as int) =~= modules@);
    out
}

/// The hook calls a transfer makes: `on_transfer` with the transfer's
/// arguments, once on each module registered for the transfer hook, in
/// registration order (none when no module is registered). See
/// [`next_step`] for how a refusal ends the dispatch.
pub fn transferred(
    s: &ComplianceRegistry,
    from: AccountSnapshot,
    to: AccountSnapshot,
    amount: i128,
    kind: TransferKind,
    token: Address,
) -> (r: Vec<(Address, HookCall)>)
    ensures
        r@ == calls_to(
            s.modules_of(ComplianceHook::Transferred),
            HookCall::OnTransfer { from, to, amount, kind, token },
        ),
{
    plan(s.list(ComplianceHook::Transferred), HookCall::OnTransfer { from, to, amount, kind, token })
}

/// The hook calls a mint makes: `on_created` with the mint's arguments,
/// once on each module registered for the mint hook, in registration
/// order.
pub fn created(s: &ComplianceRegistry, to: AccountSnapshot, amount: i128, token: Address) -> (r: Vec<
    (Address, HookCall),
>)
    ensures
        r@ == calls_to(s.modules_of(ComplianceHook::Created), HookCall::OnCreated { to, amount, token }),
{
    plan(s.list(ComplianceHook::Created), HookCall::OnCreated { to, amount, token })
}

/// The hook calls a burn makes: `on_destroyed` with the burn's arguments,
/// once on each module registered for the burn hook, in registration
/// order.
pub fn destroyed(s: &ComplianceRegistry, from: AccountSnapshot, amount: i128, token: Address) -> (r: Vec<
    (Address, HookCall),
>)
    ensures
        r@ == calls_to(s.modules_of(ComplianceHook::Destroyed), HookCall::OnDestroyed { from, amount, token }),
{
    plan(s.list(ComplianceHook::Destroyed), HookCall::OnDestroyed { from, amount, token })
}

/// What to do next while a list of module calls is being made.
#[derive(Clone, Copy, Debug, PartialEq, Eq, Structural)]
pub enum HookStep {
    /// Make the call at this position of the list.
    Call(usize),
    /// The call at this position was refused: the operation is refused
    /// (a hook dispatch reverts, a check answers `false`).
    Refused(usize),
    /// Every call accepted: the operation goes through (a check answers
    /// `true`, also when there was nothing to call).
    Finished,
}

/// The next step of making `total` module calls in order, given whether
/// each call made so far was accepted (`outcomes`): the first refusal ends
/// everything; otherwise the next call is made, until all were made.
pub fn next_step(total: usize, outcomes: &Vec<bool>) -> (r: HookStep)
    requires
        outcomes@.len() <= total,
    ensures
        match r {
            HookStep::Refused(i) => i < outcomes@.len() && !outcomes@[i as int] && forall|j: int|
                0 <= j < i ==> outcomes@[j],
            HookStep::Call(i) => i == outcomes@.len() && i < total && forall|j: int|
                0 <= j < outcomes@.len() ==> outcomes@[j],
            HookStep::Finished => outcomes@.len() == total && forall|j: int|
                0 <= j < outcomes@.len() ==> outcomes@[j],
        },
{
    let mut i: usize = 0;
    while i < outcomes.len()
        invariant
            i <= outcomes.len(),
            forall|j: int| 0 <= j < i ==> outcomes@[j],
        decreases outcomes.len() - i,
    {
        if !outcomes[i] {
            return HookStep::Refused(i);
        }
        i = i + 1;
    }
    if outcomes.len() < total {
        HookStep::Call(outcomes.len())
    } else {
        HookStep::Finished
    }
}

/// Dispatching a hook call reaches every registered module: one call per
/// module, in registration order, each with the same arguments; no module
/// is skipped and none is called that is not registered.
pub proof fn lemma_dispatch_reaches_every_module(modules: Seq<Address>, call: HookCall)
    ensures
        calls_to(modules, call).len() == modules.len(),
        forall|i: int| 0 <= i < modules.len() ==> #[trigger] calls_to(modules, call)[i] == (modules[i], call),
        forall|m: Address|
            modules.contains(m) ==> exists|i: int|
                0 <= i < calls_to(modules, call).len() && #[trigger] calls_to(modules, call)[i] == (m, call),
{
    assert forall|m: Address| modules.contains(m) implies exists|i: int|
        0 <= i < calls_to(modules, call).len() && #[trigger] calls_to(modules, call)[i] == (m, call) by {
        let i = choose|i: int| 0 <= i < modules.len() && modules[i] == m;
        assert(calls_to(modules, call)[i] == (m, call));
    }
}

/// Registering a module and then deregistering it leaves the hook's list
/// as it was.
pub proof fn lemma_add_then_remove_restores(
    s1: &ComplianceRegistry,
    s2: &ComplianceRegistry,
    s3: &ComplianceRegistry,
    hook: ComplianceHook,
    module: Address,
)
    requires
        s2.wf(),
        s2.modules_of(hook) == s1.modules_of(hook).push(module),
        exists|i: int|
            0 <= i < s2.modules_of(hook).len() && s2.modules_of(hook)[i] == module
                && s3.modules_of(hook) == s2.modules_of(hook).remove(i),
    ensures
        s3.modules_of(hook) == s1.modules_of(hook),
{
    let l = s2.modules_of(hook);
    let i = choose|i: int|
        0 <= i < l.len() && l[i] == module && s3.modules_of(hook) == l.remove(i);
    assert(distinct(l));
    if i < l.len() - 1 {
        assert(l[i] != l[l.len() - 1]);
    }
    assert(l.remove(i) =~= s1.modules_of(hook));
}

} // verus!
