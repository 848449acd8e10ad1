//! A single-file encrypted credential store.
//!
//! A master password protects a collection of named login records. The
//! collection is written in a canonical JSON form, sealed with AES-256-GCM
//! under a key that Argon2id derives from the password and a per-vault salt,
//! and kept on disk as a small versioned container whose binary fields are
//! base64 text.
//!
//! The crate performs no I/O: callers hand it strings and bytes that they have
//! already read, and write out what it returns.
//!
//! - [`model`]: the records, the vault that keeps them sorted by name, and
//!   the container.
//! - [`keys`]: the order of the names.
//! - [`json`]: the canonical text of a vault, and reading it back.
//! - [`crypto`]: key derivation, encryption and decryption of the envelope.
//! - [`storage`]: wrapping salt and envelope into a container, and creating,
//!   opening and saving a vault.
//! - [`commands`] and [`cli`]: the commands of the program as sessions that a
//!   shell serves turn by turn.
//! - [`laws`]: what holds of these operations taken together.
//! - [`primitives`]: the calls into other crates, with what is believed of
//!   them.
//! - [`error`]: the ways in which an operation can fail.

pub mod error;
pub mod keys;
pub mod json;
pub mod model;
pub mod primitives;
pub mod crypto;
pub mod storage;
pub mod commands;
pub mod cli;
pub mod laws;
