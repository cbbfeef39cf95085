//! Verified core of a broker for short-lived file-sharing sessions.
//!
//! A host opens a session bound to a magnet link and a secret revocation
//! token; any holder of the session key can read sanitized session metadata;
//! only the holder of the correct revocation token can close the session.
//!
//! The crate holds the session lifecycle logic: request validation, secret
//! token generation, the record codec used for the persisted payloads, an
//! in-memory key-value store model, and the session manager that enforces
//! the uniqueness, secrecy and authorization rules.  Transport and the
//! external store client live outside this crate and drive the manager's
//! decision functions.

pub mod codec;
pub mod errors;
pub mod manager;
pub mod session;
pub mod store;
pub mod utils;
