//! A minimal verified backend core for a task-list service.
//!
//! Users sign up and log in with an email/password pair, receive an opaque
//! bearer credential, and use it to read or overwrite a per-user task
//! document. This crate holds the verified core: identity derivation from an
//! email, password hashing and verification, the bearer-token codec, and the
//! in-memory store of accounts and task documents. HTTP wiring and JSON
//! (de)serialization of request bodies live outside this crate and hand it
//! plain byte values.

pub mod auth;
pub mod codec;
pub mod errors;
pub mod hash;
pub mod session;
pub mod store;
