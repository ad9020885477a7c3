//! The error taxonomy of the vault.

use vstd::prelude::*;

verus! {

/// Every failure a vault operation can report.
///
/// `Auth` deliberately covers both a wrong password and corrupted
/// ciphertext: the two are indistinguishable by design, so that an error
/// message cannot tell an attacker which of the two happened.
#[derive(Clone, Copy, Debug, PartialEq, Eq, Structural)]
pub enum VaultError {
    /// No vault file was present where one was needed.
    NotFound,
    /// A vault file is already present, so a new one may not be created.
    AlreadyExists,
    /// Authentication failed: wrong password or corrupted ciphertext.
    Auth,
    /// The vault file or a record in it is malformed.
    Format,
    /// A mutation or read was attempted before the vault was unlocked.
    Locked,
    /// The key-derivation primitive failed (for example, out of memory).
    KeyDerivation,
}

impl VaultError {
    /// A short description, with nothing secret in it.
    pub fn message(&self) -> (r: &'static str)
        ensures
            r@.len() > 0,
    {
        let r = match self {
            VaultError::NotFound => "vault does not exist",
            VaultError::AlreadyExists => "vault already exists",
            VaultError::Auth => "could not authenticate vault data",
            VaultError::Format => "malformed vault data",
            VaultError::Locked => "vault is locked",
            VaultError::KeyDerivation => "failed to derive key from password",
        };
        proof {
            reveal_strlit("vault does not exist");
            reveal_strlit("vault already exists");
            reveal_strlit("could not authenticate vault data");
            reveal_strlit("malformed vault data");
            reveal_strlit("vault is locked");
            reveal_strlit("failed to derive key from password");
        }
        r
    }
}

} // verus!
