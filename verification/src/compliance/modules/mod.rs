//! Compliance modules: each module enforces one policy (or keeps one set of
//! books) for the tokens whose compliance dispatcher calls its hooks. A
//! module rejects an operation by returning an error, which reverts the whole
//! token operation; a rejected hook therefore never changes module state.

pub mod contracts;
pub mod country_allow;
pub mod country_restrict;
pub mod initial_lockup_period;
pub mod max_balance;
pub mod storage;
pub mod supply_limit;
pub mod test_utils;
pub mod time_transfers_limits;
pub mod transfer_allow;
pub mod transfer_restrict;
pub mod wiring;

use crate::identity_registry_storage::IRSError;
use vstd::prelude::*;

verus! {

/// Errors raised by compliance modules.
#[derive(Clone, Copy, Debug, PartialEq, Eq, Structural)]
pub enum ComplianceModuleError {
    /// An amount argument is negative when it must be non-negative.
    InvalidAmount,
    /// Arithmetic overflow in a checked addition.
    MathOverflow,
    /// Arithmetic underflow in a checked subtraction.
    MathUnderflow,
    /// A transfer or mint would push an identity's aggregate balance above
    /// the configured maximum.
    MaxBalanceExceeded,
    /// A mint would push the tracked supply above the configured limit.
    SupplyLimitExceeded,
    /// A preset operation was attempted after the preset phase was finalized.
    PresetAlreadyCompleted,
    /// The identity registry storage address has not been configured.
    IdentityRegistryNotSet,
    /// The two parallel arrays in a batch call have different lengths.
    BatchSizeMismatch,
    /// No authorized compliance dispatcher has been bound for the token.
    ComplianceNotSet,
    /// A transfer or burn would consume more unlocked tokens than the sender
    /// holds.
    InsufficientUnlockedBalance,
    /// A mint would push a wallet past the cap on concurrently active locks.
    LockBoundExceeded,
    /// A transfer would push the sender identity's cumulative volume above a
    /// configured time-window limit.
    TransferLimitExceeded,
    /// Adding another time-window limit would exceed the per-token bound.
    LimitBoundExceeded,
    /// No time-window limit exists for the given window duration.
    LimitNotFound,
    /// The transfer recipient's country is not on the allowlist.
    CountryNotAllowed,
    /// The transfer recipient's country is on the restriction list.
    CountryRestricted,
    /// Neither transfer party is on the allowlist.
    UserNotAllowed,
}

impl ComplianceModuleError {
    /// The numeric contract error code of this error.
    pub fn code(&self) -> (c: u32)
        ensures
            c == (match *self {
                ComplianceModuleError::InvalidAmount => 390u32,
                ComplianceModuleError::MathOverflow => 391u32,
                ComplianceModuleError::MathUnderflow => 392u32,
                ComplianceModuleError::MaxBalanceExceeded => 393u32,
                ComplianceModuleError::SupplyLimitExceeded => 394u32,
                ComplianceModuleError::PresetAlreadyCompleted => 395u32,
                ComplianceModuleError::IdentityRegistryNotSet => 396u32,
                ComplianceModuleError::BatchSizeMismatch => 397u32,
                ComplianceModuleError::ComplianceNotSet => 398u32,
                ComplianceModuleError::InsufficientUnlockedBalance => 399u32,
                ComplianceModuleError::LockBoundExceeded => 400u32,
                ComplianceModuleError::TransferLimitExceeded => 401u32,
                ComplianceModuleError::LimitBoundExceeded => 402u32,
                ComplianceModuleError::LimitNotFound => 403u32,
                ComplianceModuleError::CountryNotAllowed => 404u32,
                ComplianceModuleError::CountryRestricted => 405u32,
                ComplianceModuleError::UserNotAllowed => 406u32,
            }),
    {
        match self {
            ComplianceModuleError::InvalidAmount => 390,
            ComplianceModuleError::MathOverflow => 391,
            ComplianceModuleError::MathUnderflow => 392,
            ComplianceModuleError::MaxBalanceExceeded => 393,
            ComplianceModuleError::SupplyLimitExceeded => 394,
            ComplianceModuleError::PresetAlreadyCompleted => 395,
            ComplianceModuleError::IdentityRegistryNotSet => 396,
            ComplianceModuleError::BatchSizeMismatch => 397,
            ComplianceModuleError::ComplianceNotSet => 398,
            ComplianceModuleError::InsufficientUnlockedBalance => 399,
            ComplianceModuleError::LockBoundExceeded => 400,
            ComplianceModuleError::TransferLimitExceeded => 401,
            ComplianceModuleError::LimitBoundExceeded => 402,
            ComplianceModuleError::LimitNotFound => 403,
            ComplianceModuleError::CountryNotAllowed => 404,
            ComplianceModuleError::CountryRestricted => 405,
            ComplianceModuleError::UserNotAllowed => 406,
        }
    }
}

/// The error of a hook that looks wallets up in the identity registry:
/// either the module's own refusal or the registry's.
#[derive(Clone, Copy, Debug, PartialEq, Eq, Structural)]
pub enum HookError {
    /// The module refused the operation.
    Module(ComplianceModuleError),
    /// The identity registry refused a lookup.
    Registry(IRSError),
}

/// Ledgers in one day.
pub const DAY_IN_LEDGERS: u32 = 17280;

/// TTL extension amount for compliance module storage entries (30 days).
pub const MODULE_EXTEND_AMOUNT: u32 = 518400;

/// TTL threshold below which compliance module entries are extended (29 days).
pub const MODULE_TTL_THRESHOLD: u32 = 501120;

} // verus!
