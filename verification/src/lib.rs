//! Portkey: a local store for server-connection credentials.
//!
//! The library keeps a list of credential records (host, port, user,
//! password) in memory and turns it into the bytes of a vault file —
//! either as plain serialized data or under password-based authenticated
//! encryption.  Reading and writing the file itself, as well as every
//! user-facing surface, is left to the embedding program; the library's
//! functions take the file's bytes and hand back the bytes to persist.

pub mod codec;
pub mod commands;
pub mod crypto;
pub mod envelope;
pub mod errors;
pub mod models;
pub mod search;
pub mod text;
pub mod vault;

pub use errors::VaultError;
pub use vault::Vault;
