//! A multi-tenant wallet session registry and lifecycle state machine.
//!
//! The crate maps an opaque user identifier to at most one live, secret-bearing
//! wallet session and drives each session through its
//! create/open/restore/close/destroy lifecycle. All cryptographic, storage and
//! network work belongs to external collaborators (a wallet library, a storage
//! backend, an RPC client): their outcomes enter the registry as plain values,
//! and the registry's decisions come back out as plain values, so that every
//! decision made here is verified.

pub mod error;
pub mod lifecycle;
pub mod owned_wallet;
pub mod secret;
pub mod tip_context;
pub mod utils;
