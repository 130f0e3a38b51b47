//! Verified logic of regulated real-world-asset (RWA) tokens: the modular
//! compliance registry and its compliance modules, identity registries,
//! identity verification and document management.

pub mod common;
pub mod identity_registry_storage;
pub mod identity_storage_registry;
pub mod compliance;
pub mod doc_manager;
pub mod identity_claims;
pub mod identity_verifier;
pub mod rwa;
