//! Decisions of an AI gateway, with their proofs.
//!
//! The crate holds what the gateway's filters and helpers decide, as functions
//! from plain values to plain values. Files, sockets, clocks and requests stay
//! with the caller, who hands in what was read and carries out what comes back.
//!
//! - [`grid`]: routing between gateways and the credentials for the last hop.
//! - [`token_rate_limit`]: token quotas, in memory and shared through Valkey.
//! - [`registry`]: the registry of filters.
//! - [`mock_epp`]: a deterministic endpoint picker.
//! - [`text`], [`hash`], [`header`], [`secret`]: what the others are built from.
pub mod grid;
pub mod hash;
pub mod header;
pub mod mock_epp;
pub mod registry;
pub mod secret;
pub mod text;
pub mod token_rate_limit;
