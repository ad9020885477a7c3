//! Key derivation and authenticated encryption.
//!
//! The cryptographic primitives themselves come from sodiumoxide (libsodium):
//! Argon2id for password-based key derivation and XSalsa20-Poly1305
//! (`secretbox`) for authenticated encryption.  Each primitive is reached
//! through one trusted wrapper whose contract names what the primitive
//! computes; everything around the calls is verified.

use vstd::prelude::*;

use crate::errors::VaultError;

verus! {

/// Length in bytes of a key-derivation salt (Argon2id).
pub const SALT_LEN: usize = 16;

/// Length in bytes of a secretbox nonce.
pub const NONCE_LEN: usize = 24;

/// Length in bytes of a derived symmetric key.
pub const KEY_LEN: usize = 32;

/// Number of bytes the authentication tag adds to a ciphertext.
pub const TAG_LEN: usize = 16;

/// The key that Argon2id derives from a password and a salt, under the
/// fixed interactive cost profile.  Deriving twice from the same password
/// and salt gives the same key.
pub uninterp spec fn derived_key(password: Seq<char>, salt: Seq<u8>) -> Seq<u8>;

/// The ciphertext that secretbox produces for a message under a key and a
/// nonce.  Sealing is deterministic in its three arguments.
pub uninterp spec fn sealed(key: Seq<u8>, nonce: Seq<u8>, msg: Seq<u8>) -> Seq<u8>;

/// What secretbox returns when asked to verify and decrypt a ciphertext
/// under a key and a nonce: the plaintext, or `None` when authentication
/// fails.
pub uninterp spec fn opened(key: Seq<u8>, nonce: Seq<u8>, ct: Seq<u8>) -> Option<Seq<u8>>;

/// Relies on sodiumoxide's `argon2id13::derive_key` with the interactive
/// cost profile: the derived key is a function of the password and the
/// salt alone; the call fails only when the primitive cannot run (for
/// example, it cannot allocate its working memory).
#[verifier::external_body]
fn derive_key_bytes(password: &str, salt: &Vec<u8>) -> (r: Result<Vec<u8>, ()>)
    requires
        salt@.len() == SALT_LEN,
    ensures
        r is Ok ==> r.unwrap()@ == derived_key(password@, salt@),
        r is Ok ==> r.unwrap()@.len() == KEY_LEN,
{
    let _ = sodiumoxide::init();
    let salt = sodiumoxide::crypto::pwhash::argon2id13::Salt::from_slice(salt).ok_or(())?;
    let mut key = vec![0u8; KEY_LEN];
    sodiumoxide::crypto::pwhash::argon2id13::derive_key(
        &mut key,
        password.as_bytes(),
        &salt,
        sodiumoxide::crypto::pwhash::argon2id13::OPSLIMIT_INTERACTIVE,
        sodiumoxide::crypto::pwhash::argon2id13::MEMLIMIT_INTERACTIVE,
    )
    .map_err(|_| ())?;
    Ok(key)
}

/// Relies on sodiumoxide's `argon2id13::gen_salt`: a random salt of the
/// fixed salt length.  Nothing is promised about its value.
#[verifier::external_body]
pub fn generate_salt() -> (r: Vec<u8>)
    ensures
        r@.len() == SALT_LEN,
{
    let _ = sodiumoxide::init();
    sodiumoxide::crypto::pwhash::argon2id13::gen_salt().0.to_vec()
}

/// Relies on sodiumoxide's `secretbox::gen_nonce`: a random nonce of the
/// fixed nonce length.  Nothing is promised about its value.
#[verifier::external_body]
fn gen_nonce_bytes() -> (r: Vec<u8>)
    ensures
        r@.len() == NONCE_LEN,
{
    let _ = sodiumoxide::init();
    sodiumoxide::crypto::secretbox::gen_nonce().0.to_vec()
}

/// Relies on sodiumoxide's `secretbox::seal`: the ciphertext is a function
/// of key, nonce and message; it is the message's length plus one tag; and
/// `secretbox::open` under the same key and nonce gives the message back.
#[verifier::external_body]
fn seal_bytes(msg: &Vec<u8>, nonce: &Vec<u8>, key: &Vec<u8>) -> (r: Vec<u8>)
    requires
        nonce@.len() == NONCE_LEN,
        key@.len() == KEY_LEN,
    ensures
        r@ == sealed(key@, nonce@, msg@),
        r@.len() == msg@.len() + TAG_LEN,
        opened(key@, nonce@, r@) == Some(msg@),
{
    let nonce = sodiumoxide::crypto::secretbox::Nonce::from_slice(nonce).unwrap();
    let key = sodiumoxide::crypto::secretbox::Key::from_slice(key).unwrap();
    sodiumoxide::crypto::secretbox::seal(msg, &nonce, &key)
}

/// Relies on sodiumoxide's `secretbox::open`: it returns the plaintext
/// exactly when the ciphertext authenticates under the key and nonce, and
/// what it returns is a function of the three arguments.
#[verifier::external_body]
fn open_bytes(ct: &Vec<u8>, nonce: &Vec<u8>, key: &Vec<u8>) -> (r: Result<Vec<u8>, ()>)
    requires
        nonce@.len() == NONCE_LEN,
        key@.len() == KEY_LEN,
    ensures
        r is Ok <==> opened(key@, nonce@, ct@) is Some,
        r is Ok ==> opened(key@, nonce@, ct@) == Some(r.unwrap()@),
{
    let nonce = sodiumoxide::crypto::secretbox::Nonce::from_slice(nonce).unwrap();
    let key = sodiumoxide::crypto::secretbox::Key::from_slice(key).unwrap();
    sodiumoxide::crypto::secretbox::open(ct, &nonce, &key)
}

/// A symmetric key derived from a master password.
pub struct MasterKey {
    key: Vec<u8>,
}

impl View for MasterKey {
    type V = Seq<u8>;

    closed spec fn view(&self) -> Seq<u8> {
        self.key@
    }
}

impl MasterKey {
    /// A key is well formed when it has the fixed key length.
    pub open spec fn wf(&self) -> bool {
        self@.len() == KEY_LEN
    }

    /// Derives the key for `password` under `salt`.  Deterministic: the
    /// same password and salt always give the same key.
    pub fn from_password(password: &str, salt: &Vec<u8>) -> (r: Result<MasterKey, VaultError>)
        requires
            salt@.len() == SALT_LEN,
        ensures
            r is Ok ==> r.unwrap()@ == derived_key(password@, salt@) && r.unwrap().wf(),
            r is Err ==> r->Err_0 == VaultError::KeyDerivation,
    {
        match derive_key_bytes(password, salt) {
            Ok(key) => Ok(MasterKey { key }),
            Err(()) => Err(VaultError::KeyDerivation),
        }
    }

    /// Encrypts `data` under this key with a freshly generated nonce and
    /// returns `(nonce, ciphertext)`.  Decrypting the ciphertext under the
    /// same key and nonce gives `data` back.
    pub fn encrypt(&self, data: &Vec<u8>) -> (r: (Vec<u8>, Vec<u8>))
        requires
            self.wf(),
        ensures
            r.0@.len() == NONCE_LEN,
            r.1@ == sealed(self@, r.0@, data@),
            r.1@.len() == data@.len() + TAG_LEN,
            opened(self@, r.0@, r.1@) == Some(data@),
    {
        let nonce = gen_nonce_bytes();
        let ciphertext = seal_bytes(data, &nonce, &self.key);
        (nonce, ciphertext)
    }

    /// Verifies and decrypts a ciphertext.  Succeeds exactly when the
    /// ciphertext authenticates under this key and `nonce`; any failure —
    /// wrong key, wrong nonce, or a tampered ciphertext — is the same
    /// `Auth` error, and no partial plaintext is ever returned.
    pub fn decrypt(&self, ciphertext: &Vec<u8>, nonce: &Vec<u8>) -> (r: Result<Vec<u8>, VaultError>)
        requires
            self.wf(),
            nonce@.len() == NONCE_LEN,
        ensures
            r is Ok <==> opened(self@, nonce@, ciphertext@) is Some,
            r is Ok ==> opened(self@, nonce@, ciphertext@) == Some(r.unwrap()@),
            r is Err ==> r.unwrap_err() == VaultError::Auth,
    {
        match open_bytes(ciphertext, nonce, &self.key) {
            Ok(plaintext) => Ok(plaintext),
            Err(()) => Err(VaultError::Auth),
        }
    }

    /// The raw key bytes.
    pub fn key(&self) -> (r: &Vec<u8>)
        ensures
            r@ == self@,
    {
        &self.key
    }

    /// Overwrites the key material with zeroes, so that the secret does
    /// not outlive its use in the process's memory.
    pub fn wipe(&mut self)
        ensures
            final(self)@.len() == old(self)@.len(),
            forall|i: int| 0 <= i < final(self)@.len() ==> final(self)@[i] == 0u8,
    {
        let n = self.key.len();
        let mut i: usize = 0;
        while i < n
            invariant
                n == self.key@.len(),
                i <= n,
                forall|j: int| 0 <= j < i ==> self.key@[j] == 0u8,
            decreases n - i,
        {
            self.key.set(i, 0u8);
            i = i + 1;
        }
    }
}

impl Drop for MasterKey {
    /// Relies on zeroize's `Zeroize for Vec<u8>`: the key bytes are
    /// overwritten with zeroes when the key goes out of scope, whichever
    /// path releases it, so the secret's stay in memory ends with its
    /// use.
    #[verifier::external_body]
    fn drop(&mut self)
        opens_invariants none
        no_unwind
    {
        zeroize::Zeroize::zeroize(&mut self.key);
    }
}

} // verus!
