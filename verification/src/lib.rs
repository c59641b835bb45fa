//! Core of a small training-record service: accounts, bearer-token sessions,
//! a role-based permission policy, training records with monotonically
//! allocated ids, and a durable text format for the record collection.
//!
//! The library is transport-agnostic: a caller (an HTTP layer, a CLI, a test)
//! hands it plain values and persists the exported file contents itself.

pub mod account;
pub mod codec;
pub mod error;
pub mod record;
pub mod role;
pub mod service;
pub mod session;
pub mod status;
pub mod trusted;
