//! The modular compliance framework: a registry, per token operation, of the
//! compliance modules that each operation's hook is dispatched to, and the
//! modules themselves.
//!
//! One hook exists per token operation, invoked after the operation's state
//! changes within the same transaction. A module enforces its policy by
//! rejecting the hook, which reverts the whole operation, and otherwise
//! records whatever bookkeeping it needs.

pub mod modules;
pub mod storage;


use crate::common::Address;
use vstd::prelude::*;

verus! {

/// Hook types of the modular compliance system, one per token operation.
#[derive(Clone, Copy, Debug, PartialEq, Eq, Structural)]
pub enum ComplianceHook {
    /// Tokens were transferred from one wallet to another.
    Transferred,
    /// Tokens were created (minted) to a wallet.
    Created,
    /// Tokens were destroyed (burned) from a wallet.
    Destroyed,
}

/// Who initiated a transfer and under what authority.
///
/// Privileged operations ([`TransferKind::Forced`], [`TransferKind::Recovery`])
/// are generally exempt from investor-facing policy, while bookkeeping still
/// observes them. A forced transfer is a seizure: wallet-bound state leaves
/// with the tokens. A recovery is a wallet migration: wallet-bound state moves
/// to the destination.
#[derive(Clone, Copy, Debug, PartialEq, Eq, Structural)]
pub enum TransferKind {
    /// The holder moves its own tokens.
    Standard,
    /// A delegate (the carried spender) moves the holder's tokens.
    Delegated(Address),
    /// A privileged operation seizes the tokens.
    Forced,
    /// A privileged operation migrates a lost wallet's balance to the same
    /// investor's new wallet.
    Recovery,
}

/// A view of one account as of before the operation that triggered a hook.
/// `balance - frozen` is the wallet's free (movable) amount.
#[derive(Clone, Copy, Debug, PartialEq, Eq, Structural)]
pub struct AccountSnapshot {
    /// The wallet address this snapshot describes.
    pub address: Address,
    /// The wallet's total token balance, before the operation.
    pub balance: i128,
    /// The partially-frozen portion of `balance`, before the operation.
    pub frozen: i128,
}

/// Errors of the modular compliance registry.
#[derive(Clone, Copy, Debug, PartialEq, Eq, Structural)]
pub enum ComplianceError {
    /// A module is already registered for this hook.
    ModuleAlreadyRegistered,
    /// A module is not registered for this hook.
    ModuleNotRegistered,
    /// The bound on modules per hook is exceeded.
    ModuleBoundExceeded,
    /// A token is not bound to this compliance contract.
    TokenNotBound,
}

impl ComplianceError {
    /// The numeric contract error code of this error.
    pub fn code(&self) -> (c: u32)
        ensures
            c == (match *self {
                ComplianceError::ModuleAlreadyRegistered => 360u32,
                ComplianceError::ModuleNotRegistered => 361u32,
                ComplianceError::ModuleBoundExceeded => 362u32,
                ComplianceError::TokenNotBound => 363u32,
            }),
    {
        match self {
            ComplianceError::ModuleAlreadyRegistered => 360,
            ComplianceError::ModuleNotRegistered => 361,
            ComplianceError::ModuleBoundExceeded => 362,
            ComplianceError::TokenNotBound => 363,
        }
    }
}

/// The maximum number of modules registered for one hook.
pub const MAX_MODULES: u32 = 20;

/// TTL extension amount for compliance entries (30 days).
pub const COMPLIANCE_EXTEND_AMOUNT: u32 = 518400;

/// TTL threshold below which compliance entries are extended (29 days).
pub const COMPLIANCE_TTL_THRESHOLD: u32 = 501120;

} // verus!
