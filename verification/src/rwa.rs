//! Errors and storage constants of the RWA token itself.

use vstd::prelude::*;

verus! {

/// Errors of the RWA token.
#[derive(Clone, Copy, Debug, PartialEq, Eq, Structural)]
pub enum RWAError {
    /// The balance is insufficient for the operation.
    InsufficientBalance,
    /// An input that must be non-negative is negative.
    LessThanZero,
    /// The address is frozen and cannot perform operations.
    AddressFrozen,
    /// Not enough free (unfrozen) tokens.
    InsufficientFreeTokens,
    /// An identity cannot be verified.
    IdentityVerificationFailed,
    /// The transfer does not comply with the compliance rules.
    TransferNotCompliant,
    /// The mint does not comply with the compliance rules.
    MintNotCompliant,
    /// The compliance contract is not set.
    ComplianceNotSet,
    /// The onchain ID is not set.
    OnchainIdNotSet,
    /// The version is not set.
    VersionNotSet,
    /// The claim topics and issuers contract is not set.
    ClaimTopicsAndIssuersNotSet,
    /// The identity registry storage contract is not set.
    IdentityRegistryStorageNotSet,
    /// The identity verifier contract is not set.
    IdentityVerifierNotSet,
    /// The old account and the new account have different identities.
    IdentityMismatch,
}

impl RWAError {
    /// The numeric contract error code of this error.
    pub fn code(&self) -> (c: u32)
        ensures
            c == (match *self {
                RWAError::InsufficientBalance => 300u32,
                RWAError::LessThanZero => 301u32,
                RWAError::AddressFrozen => 302u32,
                RWAError::InsufficientFreeTokens => 303u32,
                RWAError::IdentityVerificationFailed => 304u32,
                RWAError::TransferNotCompliant => 305u32,
                RWAError::MintNotCompliant => 306u32,
                RWAError::ComplianceNotSet => 307u32,
                RWAError::OnchainIdNotSet => 308u32,
                RWAError::VersionNotSet => 309u32,
                RWAError::ClaimTopicsAndIssuersNotSet => 310u32,
                RWAError::IdentityRegistryStorageNotSet => 311u32,
                RWAError::IdentityVerifierNotSet => 312u32,
                RWAError::IdentityMismatch => 313u32,
            }),
    {
        match self {
            RWAError::InsufficientBalance => 300,
            RWAError::LessThanZero => 301,
            RWAError::AddressFrozen => 302,
            RWAError::InsufficientFreeTokens => 303,
            RWAError::IdentityVerificationFailed => 304,
            RWAError::TransferNotCompliant => 305,
            RWAError::MintNotCompliant => 306,
            RWAError::ComplianceNotSet => 307,
            RWAError::OnchainIdNotSet => 308,
            RWAError::VersionNotSet => 309,
            RWAError::ClaimTopicsAndIssuersNotSet => 310,
            RWAError::IdentityRegistryStorageNotSet => 311,
            RWAError::IdentityVerifierNotSet => 312,
            RWAError::IdentityMismatch => 313,
        }
    }
}

/// Ledgers in one day.
pub const DAY_IN_LEDGERS: u32 = 17280;

/// TTL extension amount for frozen-state entries (30 days).
pub const FROZEN_EXTEND_AMOUNT: u32 = 518400;

/// TTL threshold below which frozen-state entries are extended (29 days).
pub const FROZEN_TTL_THRESHOLD: u32 = 501120;

} // verus!
