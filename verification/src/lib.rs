//! A multi-tenant identity and one-time-passcode authentication core.
//!
//! The crate covers the OTP lifecycle (time-bound code generation, ephemeral
//! storage with expiry, exactly-once redemption), issuance and verification of
//! signed session and tenant tokens, and the tenant-provisioning transition,
//! together with the typed mapping of cache and database failures to service
//! outcomes.

pub mod auth;
pub mod b64;
pub mod claims;
pub mod json;
pub mod mail;
pub mod otp;
pub mod outcome;
pub mod phone;
pub mod store;
pub mod tenants;
pub mod token;
pub mod users;
