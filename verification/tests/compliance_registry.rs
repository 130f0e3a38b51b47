use rwa_tokens::compliance::storage::{
    add_module_to, bind_token, created, destroyed, get_modules_for_hook, is_module_registered,
    linked_tokens, next_step, remove_module_from, transferred, unbind_token, ComplianceRegistry,
    HookCall, HookStep,
};
use rwa_tokens::compliance::{
    AccountSnapshot, ComplianceError, ComplianceHook, TransferKind, MAX_MODULES,
};

const TRANSFERRED: ComplianceHook = ComplianceHook::Transferred;

#[test]
fn add_module_to_works() {
    let mut s = ComplianceRegistry::new();
    let module = 11u64;
    assert!(!is_module_registered(&s, TRANSFERRED, module));
    assert!(get_modules_for_hook(&s, TRANSFERRED).is_empty());
    assert_eq!(add_module_to(&mut s, TRANSFERRED, module), Ok(()));
    assert!(is_module_registered(&s, TRANSFERRED, module));
    let modules = get_modules_for_hook(&s, TRANSFERRED);
    assert_eq!(modules.len(), 1);
    assert_eq!(modules[0], module);
}

#[test]
fn add_multiple_modules_to_same_hook_works() {
    let mut s = ComplianceRegistry::new();
    for m in [1u64, 2, 3] {
        assert_eq!(add_module_to(&mut s, TRANSFERRED, m), Ok(()));
    }
    for m in [1u64, 2, 3] {
        assert!(is_module_registered(&s, TRANSFERRED, m));
    }
    assert_eq!(get_modules_for_hook(&s, TRANSFERRED).len(), 3);
}

#[test]
fn add_module_to_different_hooks_works() {
    let mut s = ComplianceRegistry::new();
    let module = 7u64;
    add_module_to(&mut s, ComplianceHook::Transferred, module).unwrap();
    add_module_to(&mut s, ComplianceHook::Created, module).unwrap();
    assert!(is_module_registered(&s, ComplianceHook::Transferred, module));
    assert!(is_module_registered(&s, ComplianceHook::Created, module));
    assert!(!is_module_registered(&s, ComplianceHook::Destroyed, module));
    assert_eq!(get_modules_for_hook(&s, ComplianceHook::Transferred).len(), 1);
    assert_eq!(get_modules_for_hook(&s, ComplianceHook::Created).len(), 1);
    assert_eq!(get_modules_for_hook(&s, ComplianceHook::Destroyed).len(), 0);
}

#[test]
fn add_module_already_registered_panics() {
    let mut s = ComplianceRegistry::new();
    add_module_to(&mut s, TRANSFERRED, 5).unwrap();
    let r = add_module_to(&mut s, TRANSFERRED, 5);
    assert_eq!(r, Err(ComplianceError::ModuleAlreadyRegistered));
    assert_eq!(r.unwrap_err().code(), 360);
    assert_eq!(get_modules_for_hook(&s, TRANSFERRED), vec![5u64]);
}

#[test]
fn remove_module_from_works() {
    let mut s = ComplianceRegistry::new();
    add_module_to(&mut s, TRANSFERRED, 9).unwrap();
    assert!(is_module_registered(&s, TRANSFERRED, 9));
    assert_eq!(remove_module_from(&mut s, TRANSFERRED, 9), Ok(()));
    assert!(!is_module_registered(&s, TRANSFERRED, 9));
    assert!(get_modules_for_hook(&s, TRANSFERRED).is_empty());
}

#[test]
fn remove_module_from_multiple_modules_works() {
    let mut s = ComplianceRegistry::new();
    for m in [1u64, 2, 3] {
        add_module_to(&mut s, TRANSFERRED, m).unwrap();
    }
    remove_module_from(&mut s, TRANSFERRED, 2).unwrap();
    assert!(is_module_registered(&s, TRANSFERRED, 1));
    assert!(!is_module_registered(&s, TRANSFERRED, 2));
    assert!(is_module_registered(&s, TRANSFERRED, 3));
    assert_eq!(get_modules_for_hook(&s, TRANSFERRED), vec![1u64, 3]);
}

#[test]
fn remove_module_not_registered_panics() {
    let mut s = ComplianceRegistry::new();
    let r = remove_module_from(&mut s, TRANSFERRED, 4);
    assert_eq!(r, Err(ComplianceError::ModuleNotRegistered));
    assert_eq!(r.unwrap_err().code(), 361);
}

#[test]
fn get_modules_for_hook_empty_returns_empty_vec() {
    let s = ComplianceRegistry::new();
    assert!(get_modules_for_hook(&s, TRANSFERRED).is_empty());
}

#[test]
fn is_module_registered_false_for_unregistered() {
    let s = ComplianceRegistry::new();
    assert!(!is_module_registered(&s, ComplianceHook::Transferred, 3));
    assert!(!is_module_registered(&s, ComplianceHook::Created, 3));
    assert!(!is_module_registered(&s, ComplianceHook::Destroyed, 3));
}

#[test]
fn hook_isolation_works() {
    let mut s = ComplianceRegistry::new();
    add_module_to(&mut s, ComplianceHook::Transferred, 8).unwrap();
    assert!(is_module_registered(&s, ComplianceHook::Transferred, 8));
    assert!(!is_module_registered(&s, ComplianceHook::Created, 8));
    assert!(!is_module_registered(&s, ComplianceHook::Destroyed, 8));
    assert_eq!(get_modules_for_hook(&s, ComplianceHook::Transferred).len(), 1);
    assert_eq!(get_modules_for_hook(&s, ComplianceHook::Created).len(), 0);
    assert_eq!(get_modules_for_hook(&s, ComplianceHook::Destroyed).len(), 0);
}

#[test]
fn module_order_preserved() {
    let mut s = ComplianceRegistry::new();
    for m in [31u64, 32, 33] {
        add_module_to(&mut s, TRANSFERRED, m).unwrap();
    }
    let modules = get_modules_for_hook(&s, TRANSFERRED);
    assert_eq!(modules, vec![31u64, 32, 33]);
}

#[test]
fn all_hook_types_work() {
    let mut s = ComplianceRegistry::new();
    let module = 12u64;
    for hook in [ComplianceHook::Transferred, ComplianceHook::Created, ComplianceHook::Destroyed] {
        add_module_to(&mut s, hook, module).unwrap();
        assert!(is_module_registered(&s, hook, module));
        let modules = get_modules_for_hook(&s, hook);
        assert_eq!(modules.len(), 1);
        assert_eq!(modules[0], module);
        remove_module_from(&mut s, hook, module).unwrap();
        assert!(!is_module_registered(&s, hook, module));
        assert!(get_modules_for_hook(&s, hook).is_empty());
    }
}

#[test]
fn add_module_exceeds_max_modules_panics() {
    let mut s = ComplianceRegistry::new();
    for m in 0..MAX_MODULES as u64 {
        add_module_to(&mut s, TRANSFERRED, 100 + m).unwrap();
    }
    let r = add_module_to(&mut s, TRANSFERRED, 999);
    assert_eq!(r, Err(ComplianceError::ModuleBoundExceeded));
    assert_eq!(r.unwrap_err().code(), 362);
    assert_eq!(get_modules_for_hook(&s, TRANSFERRED).len(), MAX_MODULES as usize);
}

/// A module that refuses odd amounts, as the token's mock module does.
fn mock_module(call: &HookCall) -> bool {
    match call {
        HookCall::OnTransfer { amount, .. } => amount % 2 == 0,
        HookCall::OnCreated { amount, .. } => amount % 2 == 0,
        HookCall::OnDestroyed { .. } => true,
    }
}

/// Makes the calls in order as `next_step` directs; the modules called,
/// or the position of the refused call.
fn run(calls: &Vec<(u64, HookCall)>) -> Result<Vec<u64>, usize> {
    let mut outcomes: Vec<bool> = Vec::new();
    let mut called: Vec<u64> = Vec::new();
    loop {
        match next_step(calls.len(), &outcomes) {
            HookStep::Call(i) => {
                called.push(calls[i].0);
                outcomes.push(mock_module(&calls[i].1));
            }
            HookStep::Refused(i) => return Err(i),
            HookStep::Finished => return Ok(called),
        }
    }
}

fn snapshot(address: u64) -> AccountSnapshot {
    AccountSnapshot { address, balance: 0, frozen: 0 }
}

const TOKEN: u64 = 500;

#[test]
fn transferred_hook_execution_works() {
    let mut s = ComplianceRegistry::new();
    let module = 77u64;
    bind_token(&mut s, TOKEN);
    add_module_to(&mut s, ComplianceHook::Transferred, module).unwrap();
    let calls = transferred(&s, snapshot(1), snapshot(2), 1000, TransferKind::Standard, TOKEN);
    let call = HookCall::OnTransfer {
        from: snapshot(1),
        to: snapshot(2),
        amount: 1000,
        kind: TransferKind::Standard,
        token: TOKEN,
    };
    assert_eq!(calls, vec![(module, call)]);
    assert_eq!(run(&calls), Ok(vec![module]));
}

#[test]
fn created_hook_execution_works() {
    let mut s = ComplianceRegistry::new();
    let module = 78u64;
    bind_token(&mut s, TOKEN);
    add_module_to(&mut s, ComplianceHook::Created, module).unwrap();
    let calls = created(&s, snapshot(2), 1000, TOKEN);
    assert_eq!(calls, vec![(module, HookCall::OnCreated { to: snapshot(2), amount: 1000, token: TOKEN })]);
    assert_eq!(run(&calls), Ok(vec![module]));
}

#[test]
fn destroyed_hook_execution_works() {
    let mut s = ComplianceRegistry::new();
    let module = 79u64;
    bind_token(&mut s, TOKEN);
    add_module_to(&mut s, ComplianceHook::Destroyed, module).unwrap();
    let calls = destroyed(&s, snapshot(1), 1000, TOKEN);
    assert_eq!(calls, vec![(module, HookCall::OnDestroyed { from: snapshot(1), amount: 1000, token: TOKEN })]);
    assert_eq!(run(&calls), Ok(vec![module]));
}

#[test]
#[should_panic(expected = "mock module rejects odd amounts")]
fn transferred_panics_when_module_rejects() {
    let mut s = ComplianceRegistry::new();
    bind_token(&mut s, TOKEN);
    add_module_to(&mut s, ComplianceHook::Transferred, 41).unwrap();
    let calls = transferred(&s, snapshot(1), snapshot(2), 1001, TransferKind::Standard, TOKEN);
    if run(&calls).is_err() {
        panic!("mock module rejects odd amounts");
    }
}

#[test]
#[should_panic(expected = "mock module rejects odd amounts")]
fn created_panics_when_any_module_rejects() {
    let mut s = ComplianceRegistry::new();
    bind_token(&mut s, TOKEN);
    add_module_to(&mut s, ComplianceHook::Created, 42).unwrap();
    add_module_to(&mut s, ComplianceHook::Created, 43).unwrap();
    let calls = created(&s, snapshot(2), 1001, TOKEN);
    if run(&calls).is_err() {
        panic!("mock module rejects odd amounts");
    }
}

#[test]
fn a_refusal_stops_the_dispatch() {
    let mut s = ComplianceRegistry::new();
    add_module_to(&mut s, ComplianceHook::Created, 42).unwrap();
    add_module_to(&mut s, ComplianceHook::Created, 43).unwrap();
    let calls = created(&s, snapshot(2), 1001, TOKEN);
    // The first module refuses; the second is never called.
    assert_eq!(run(&calls), Err(0));
    assert_eq!(next_step(2, &vec![true, false]), HookStep::Refused(1));
    assert_eq!(next_step(2, &vec![true]), HookStep::Call(1));
    assert_eq!(next_step(0, &vec![]), HookStep::Finished);
}

#[test]
fn hooks_dispatch_whether_or_not_the_token_is_bound() {
    let mut s = ComplianceRegistry::new();
    add_module_to(&mut s, ComplianceHook::Transferred, 1).unwrap();
    let calls = transferred(&s, snapshot(1), snapshot(2), 2, TransferKind::Forced, 900);
    assert_eq!(calls.len(), 1);
    assert_eq!(calls[0].0, 1u64);
    assert_eq!(created(&s, snapshot(2), 2, 900).len(), 0);
    assert_eq!(destroyed(&s, snapshot(2), 2, 900).len(), 0);
    assert_eq!(ComplianceError::TokenNotBound.code(), 363);
}

#[test]
fn bind_and_unbind_tokens() {
    let mut s = ComplianceRegistry::new();
    bind_token(&mut s, 5);
    bind_token(&mut s, 6);
    bind_token(&mut s, 5);
    assert_eq!(linked_tokens(&s), vec![5u64, 6]);
    unbind_token(&mut s, 5);
    assert_eq!(linked_tokens(&s), vec![6u64]);
    unbind_token(&mut s, 9);
    assert_eq!(linked_tokens(&s), vec![6u64]);
}
