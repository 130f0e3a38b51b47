use rwa_tokens::compliance::modules::transfer_allow::{
    allow_user, batch_allow_users, batch_disallow_users, disallow_user, is_user_allowed,
    on_transfer, remove_user_allowed, set_user_allowed, TransferAllow,
};
use rwa_tokens::compliance::modules::ComplianceModuleError;
use rwa_tokens::compliance::TransferKind;

const TOKEN: u64 = 1;
const TOKEN_B: u64 = 2;
const FROM: u64 = 10;
const TO: u64 = 11;

#[test]
fn set_user_allowed_persists_membership() {
    let mut s = TransferAllow::new();
    assert!(!is_user_allowed(&s, TOKEN, FROM));
    set_user_allowed(&mut s, TOKEN, FROM);
    assert!(is_user_allowed(&s, TOKEN, FROM));
    remove_user_allowed(&mut s, TOKEN, FROM);
    assert!(!is_user_allowed(&s, TOKEN, FROM));
}

#[test]
fn on_transfer_allows_allowlisted_sender() {
    let mut s = TransferAllow::new();
    allow_user(&mut s, TOKEN, FROM);
    assert_eq!(on_transfer(&s, FROM, TO, TransferKind::Standard, TOKEN), Ok(()));
}

#[test]
fn on_transfer_allows_allowlisted_recipient() {
    let mut s = TransferAllow::new();
    allow_user(&mut s, TOKEN, TO);
    assert_eq!(on_transfer(&s, FROM, TO, TransferKind::Standard, TOKEN), Ok(()));
}

#[test]
fn on_transfer_panics_when_neither_party_allowlisted() {
    let s = TransferAllow::new();
    let r = on_transfer(&s, FROM, TO, TransferKind::Standard, TOKEN);
    assert_eq!(r, Err(ComplianceModuleError::UserNotAllowed));
    assert_eq!(r.unwrap_err().code(), 406);
}

#[test]
fn on_transfer_forced_is_exempt_from_policy() {
    let s = TransferAllow::new();
    assert_eq!(on_transfer(&s, FROM, TO, TransferKind::Forced, TOKEN), Ok(()));
}

#[test]
fn on_transfer_recovery_is_exempt_from_policy() {
    let s = TransferAllow::new();
    assert_eq!(on_transfer(&s, FROM, TO, TransferKind::Recovery, TOKEN), Ok(()));
}

#[test]
fn allowlist_is_tracked_per_token() {
    let mut s = TransferAllow::new();
    allow_user(&mut s, TOKEN, FROM);
    assert_eq!(on_transfer(&s, FROM, TO, TransferKind::Standard, TOKEN), Ok(()));
    let r = on_transfer(&s, FROM, TO, TransferKind::Standard, TOKEN_B);
    assert_eq!(r, Err(ComplianceModuleError::UserNotAllowed));
    assert_eq!(r.unwrap_err().code(), 406);
}

#[test]
fn allow_user_is_idempotent() {
    let mut s = TransferAllow::new();
    assert!(allow_user(&mut s, TOKEN, FROM));
    // The second call changes nothing and reports that nothing changed,
    // so no event is owed for it.
    assert!(!allow_user(&mut s, TOKEN, FROM));
    assert!(is_user_allowed(&s, TOKEN, FROM));
}

#[test]
fn disallow_user_is_noop_when_not_present() {
    let mut s = TransferAllow::new();
    assert!(!disallow_user(&mut s, TOKEN, FROM));
    assert!(!is_user_allowed(&s, TOKEN, FROM));
}

#[test]
fn disallow_user_revokes_access() {
    let mut s = TransferAllow::new();
    allow_user(&mut s, TOKEN, FROM);
    assert_eq!(on_transfer(&s, FROM, TO, TransferKind::Standard, TOKEN), Ok(()));
    assert!(disallow_user(&mut s, TOKEN, FROM));
    let r = on_transfer(&s, FROM, TO, TransferKind::Standard, TOKEN);
    assert_eq!(r, Err(ComplianceModuleError::UserNotAllowed));
}

#[test]
fn batch_allow_users_adds_all_entries() {
    let mut s = TransferAllow::new();
    let added = batch_allow_users(&mut s, TOKEN, &vec![FROM, TO]);
    assert_eq!(added, vec![FROM, TO]);
    assert!(is_user_allowed(&s, TOKEN, FROM));
    assert!(is_user_allowed(&s, TOKEN, TO));
}

#[test]
fn batch_disallow_users_removes_all_entries() {
    let mut s = TransferAllow::new();
    batch_allow_users(&mut s, TOKEN, &vec![FROM, TO]);
    let removed = batch_disallow_users(&mut s, TOKEN, &vec![FROM, TO]);
    assert_eq!(removed, vec![FROM, TO]);
    assert!(!is_user_allowed(&s, TOKEN, FROM));
    assert!(!is_user_allowed(&s, TOKEN, TO));
}

#[test]
fn batch_allow_users_reports_only_new_entries() {
    let mut s = TransferAllow::new();
    allow_user(&mut s, TOKEN, FROM);
    let added = batch_allow_users(&mut s, TOKEN, &vec![FROM, TO, TO]);
    assert_eq!(added, vec![TO]);
}
