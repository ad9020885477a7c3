//! The vault: the lock/unlock state machine around the credential set.
//!
//! A vault is either locked (no key, no set in memory) or unlocked (set
//! in memory, and the derived key and salt too if the vault is
//! encrypted).  Every mutating operation re-serializes the set, seals it
//! under the held key with a fresh nonce (or leaves it in the clear for a
//! vault created without a password), and hands back the bytes that must
//! replace the vault file; reading and writing the file itself is the
//! embedding program's task, as is keeping its permissions to the owner.

use vstd::prelude::*;

use crate::codec::{decode_vault_data, encode_vault_data, spec_decode_vault_data};
use crate::crypto::{derived_key, opened, MasterKey, generate_salt, SALT_LEN};
use crate::envelope::{
    decode_vault_file, encode_vault_file, spec_decode_vault_file, PayloadView, VaultFile,
    VaultPayload,
};
use crate::errors::VaultError;
use crate::models::{
    has_id, now_ts, replaced_view, server_wf, vault_data_wf, views_of, Server, VaultData,
    VaultDataView,
};

verus! {

/// Whether a payload's bytes decode to exactly the credential set `data`.
pub open spec fn payload_recovers(p: Seq<u8>, data: VaultDataView) -> bool {
    spec_decode_vault_data(p) == Some(data)
}

/// What it means for vault-file bytes to hold the credential set `data`
/// under an optional key: the bytes decode to an envelope whose creation
/// time is `created`, and whose payload either lies in the clear (no
/// key) or opens under the key — derived with the envelope's own salt —
/// to bytes that decode to `data`.
pub open spec fn file_holds(
    bytes: Seq<u8>,
    data: VaultDataView,
    key: Option<Seq<u8>>,
    salt: Option<Seq<u8>>,
    created: u64,
) -> bool {
    match spec_decode_vault_file(bytes) {
        None => false,
        Some(env) => env.created_at == created && match env.payload {
            PayloadView::Plaintext(p) => key is None && salt is None && payload_recovers(p, data),
            PayloadView::Encrypted { salt: s, nonce, ciphertext } => key is Some && salt == Some(s)
                && match opened(key.unwrap(), nonce, ciphertext) {
                None => false,
                Some(pt) => payload_recovers(pt, data),
            },
        },
    }
}

/// Two vault values that are the same state: equally locked or
/// unlocked, holding the same set, key, salt and creation time.
pub open spec fn state_eq(a: Vault, b: Vault) -> bool {
    &&& a.spec_unlocked() == b.spec_unlocked()
    &&& (a.spec_unlocked() ==> a.spec_data() == b.spec_data())
    &&& a.spec_encrypted() == b.spec_encrypted()
    &&& a.spec_key_opt() == b.spec_key_opt()
    &&& a.spec_salt_opt() == b.spec_salt_opt()
    &&& a.spec_created() == b.spec_created()
}

/// The vault: a two-state machine.  Locked holds nothing; Unlocked holds
/// the credential set, and the derived key and salt when the vault is
/// encrypted.  There is no way back from Unlocked to Locked within one
/// value's lifetime — locking happens by starting over.
pub struct Vault {
    master_key: Option<MasterKey>,
    data: Option<VaultData>,
    salt: Option<Vec<u8>>,
    created_at: u64,
}

impl Vault {
    /// Whether the vault is unlocked: the credential set is in memory.
    pub closed spec fn spec_unlocked(&self) -> bool {
        self.data is Some
    }

    /// The credential set held in memory (meaningful when unlocked).
    pub closed spec fn spec_data(&self) -> VaultDataView {
        self.data.unwrap()@
    }

    /// Whether the vault holds a derived key, i.e. is encrypted.
    pub closed spec fn spec_encrypted(&self) -> bool {
        self.master_key is Some
    }

    /// The held key's bytes (meaningful when encrypted).
    pub closed spec fn spec_key(&self) -> Seq<u8> {
        self.master_key.unwrap()@
    }

    /// The held salt's bytes (meaningful when encrypted).
    pub closed spec fn spec_salt(&self) -> Seq<u8> {
        self.salt.unwrap()@
    }

    /// The held key, or nothing for an unencrypted vault.
    pub open spec fn spec_key_opt(&self) -> Option<Seq<u8>> {
        if self.spec_encrypted() {
            Some(self.spec_key())
        } else {
            None
        }
    }

    /// The held salt, or nothing for an unencrypted vault.
    pub open spec fn spec_salt_opt(&self) -> Option<Seq<u8>> {
        if self.spec_encrypted() {
            Some(self.spec_salt())
        } else {
            None
        }
    }

    /// The vault's creation time, as read from or written to the file.
    pub closed spec fn spec_created(&self) -> u64 {
        self.created_at
    }

    /// The vault's invariant: an in-memory set satisfies the set's own
    /// invariant; a key is held only while unlocked, is well formed, and
    /// comes with the salt it was derived from.
    pub closed spec fn wf(&self) -> bool {
        &&& (self.data matches Some(d) ==> vault_data_wf(d@))
        &&& (self.master_key matches Some(k) ==> k.wf())
        &&& (self.master_key is Some ==> self.data is Some && self.salt is Some
            && self.salt.unwrap()@.len() == SALT_LEN)
        &&& (self.master_key is None ==> self.salt is None)
    }

    /// A fresh vault value: locked, holding nothing.
    pub fn new() -> (r: Vault)
        ensures
            !r.spec_unlocked(),
            !r.spec_encrypted(),
            r.wf(),
    {
        Vault { master_key: None, data: None, salt: None, created_at: 0 }
    }

    /// Whether the vault is unlocked.
    pub fn is_unlocked(&self) -> (r: bool)
        ensures
            r == self.spec_unlocked(),
    {
        self.data.is_some()
    }

    /// Creates a new vault and returns the bytes of its file.
    ///
    /// Fails with `AlreadyExists` when a vault file is already present
    /// (`file_exists` — no silent overwrite).  With a password, a fresh
    /// salt is generated, a key derived, and an empty credential set
    /// sealed under it; without one, the empty set's bytes lie in the
    /// clear, and no key is ever involved — the choice is the caller's
    /// alone.  On success the vault is unlocked, holding the empty set.
    pub fn create(&mut self, password: Option<&str>, file_exists: bool) -> (r: Result<
        Vec<u8>,
        VaultError,
    >)
        requires
            old(self).wf(),
        ensures
            final(self).wf(),
            file_exists ==> r == Err::<Vec<u8>, VaultError>(VaultError::AlreadyExists) && *final(self) == *old(self),
            !file_exists && password is None ==> r is Ok,
            !file_exists && r is Err ==> r->Err_0 == VaultError::KeyDerivation && password
                is Some && *final(self) == *old(self),
            r is Ok ==> {
                &&& final(self).spec_unlocked()
                &&& final(self).spec_data().servers.len() == 0
                &&& final(self).spec_data().version == "1.0.0"@
                &&& final(self).spec_encrypted() == (password is Some)
                &&& (password matches Some(pw) ==> final(self).spec_key() == derived_key(
                    pw@,
                    final(self).spec_salt(),
                ))
                &&& file_holds(
                    r.unwrap()@,
                    final(self).spec_data(),
                    final(self).spec_key_opt(),
                    final(self).spec_salt_opt(),
                    final(self).spec_created(),
                )
            },
    {
        if file_exists {
            return Err(VaultError::AlreadyExists);
        }
        let data = VaultData::new();
        match password {
            Some(pw) => {
                let salt = generate_salt();
                let key = match MasterKey::from_password(pw, &salt) {
                    Ok(k) => k,
                    Err(e) => {
                        return Err(e);
                    },
                };
                self.wipe_key();
                self.master_key = Some(key);
                self.salt = Some(salt);
            },
            None => {
                self.wipe_key();
                self.master_key = None;
                self.salt = None;
            },
        }
        self.data = Some(data);
        self.created_at = now_ts();
        let bytes = self.save();
        Ok(bytes)
    }

    /// Unlocks the vault from the bytes of its file (`None` when no file
    /// is present: `NotFound`).
    ///
    /// A malformed file is `Format`.  A plaintext envelope needs no
    /// password; offering one anyway is rejected with `Auth`, so that a
    /// caller who believes the vault is protected is told it is not,
    /// rather than silently let in.  An encrypted envelope demands a
    /// password, and the sole authority on its correctness is
    /// authenticated decryption: any failure — wrong password or
    /// tampered bytes, indistinguishable by design — is `Auth`, and no
    /// partial or corrupted credential set is ever materialized.  On any
    /// error the vault is exactly as it was.
    #[verifier::rlimit(50)]
pub fn unlock(&mut self, password: Option<&str>, file: Option<&Vec<u8>>) -> (r: Result<
        (),
        VaultError,
    >)
        requires
            old(self).wf(),
        ensures
            final(self).wf(),
            r is Err ==> *final(self) == *old(self),
            file is None ==> r == Err::<(), VaultError>(VaultError::NotFound),
            file matches Some(b) ==> match spec_decode_vault_file(b@) {
                None => r == Err::<(), VaultError>(VaultError::Format),
                Some(env) => match env.payload {
                    PayloadView::Plaintext(p) => {
                        &&& (password is Some ==> r == Err::<(), VaultError>(VaultError::Auth))
                        &&& (password is None ==> match spec_decode_vault_data(p) {
                            None => r == Err::<(), VaultError>(VaultError::Format),
                            Some(d) => r is Ok && final(self).spec_unlocked() && !final(self).spec_encrypted() && final(self).spec_data() == d && final(self).spec_created() == env.created_at,
                        })
                    },
                    PayloadView::Encrypted { salt, nonce, ciphertext } => {
                        &&& (password is None ==> r == Err::<(), VaultError>(VaultError::Auth))
                        &&& (password matches Some(pw) ==> {
                            let k = derived_key(pw@, salt);
                            &&& (r is Err ==> r->Err_0 == VaultError::Auth || r->Err_0
                                == VaultError::Format || r->Err_0 == VaultError::KeyDerivation)
                            &&& (r is Err && r->Err_0 == VaultError::Auth ==> opened(
                                k,
                                nonce,
                                ciphertext,
                            ) is None)
                            &&& (r is Err && r->Err_0 == VaultError::Format ==> (opened(k, nonce, ciphertext) matches Some(pt)
                                && spec_decode_vault_data(pt) is None))
                            &&& (r is Ok ==> (opened(k, nonce, ciphertext) matches Some(pt)
                                && spec_decode_vault_data(pt) matches Some(d)
                                && final(self).spec_unlocked() && final(self).spec_encrypted()
                                && final(self).spec_data() == d && final(self).spec_key() == k
                                && final(self).spec_salt() == salt
                                && final(self).spec_created() == env.created_at))
                        })
                    },
                },
            },
    {
        let bytes = match file {
            None => {
                return Err(VaultError::NotFound);
            },
            Some(b) => b,
        };
        let env = match decode_vault_file(bytes) {
            None => {
                return Err(VaultError::Format);
            },
            Some(e) => e,
        };
        match env.payload {
            VaultPayload::Plaintext(p) => {
                if password.is_some() {
                    return Err(VaultError::Auth);
                }
                let data = match decode_vault_data(&p) {
                    None => {
                        return Err(VaultError::Format);
                    },
                    Some(d) => d,
                };
                self.wipe_key();
                self.master_key = None;
                self.salt = None;
                self.data = Some(data);
                self.created_at = env.created_at;
                Ok(())
            },
            VaultPayload::Encrypted { salt, nonce, ciphertext } => {
                let pw = match password {
                    None => {
                        return Err(VaultError::Auth);
                    },
                    Some(pw) => pw,
                };
                let key = match MasterKey::from_password(pw, &salt) {
                    Ok(k) => k,
                    Err(e) => {
                        return Err(e);
                    },
                };
                let plaintext = match key.decrypt(&ciphertext, &nonce) {
                    Ok(pt) => pt,
                    Err(e) => {
                        return Err(e);
                    },
                };
                let data = match decode_vault_data(&plaintext) {
                    None => {
                        return Err(VaultError::Format);
                    },
                    Some(d) => d,
                };
                self.wipe_key();
                self.master_key = Some(key);
                self.salt = Some(salt);
                self.data = Some(data);
                self.created_at = env.created_at;
                Ok(())
            },
        }
    }

    /// Adds a record and returns the new bytes of the vault file.
    /// Demands an unlocked vault (`Locked` otherwise); an unlocked vault
    /// never refuses.  A record whose identity is already present — which
    /// fresh identities make next to impossible — leaves the set
    /// unchanged, keeping identities unique.
    pub fn add_server(&mut self, server: Server) -> (r: Result<Vec<u8>, VaultError>)
        requires
            old(self).wf(),
            server_wf(server@),
        ensures
            final(self).wf(),
            r is Ok <==> old(self).spec_unlocked(),
            r is Err ==> r->Err_0 == VaultError::Locked && *final(self) == *old(self),
            r is Ok ==> {
                &&& final(self).spec_unlocked()
                &&& final(self).spec_encrypted() == old(self).spec_encrypted()
                &&& final(self).spec_key_opt() == old(self).spec_key_opt()
                &&& final(self).spec_salt_opt() == old(self).spec_salt_opt()
                &&& final(self).spec_created() == old(self).spec_created()
                &&& final(self).spec_data().version == old(self).spec_data().version
                &&& (!has_id(old(self).spec_data().servers, server@.id) ==> final(self).spec_data().servers == old(self).spec_data().servers.push(server@))
                &&& (has_id(old(self).spec_data().servers, server@.id) ==> final(self).spec_data()
                    == old(self).spec_data())
                &&& has_id(final(self).spec_data().servers, server@.id)
                &&& file_holds(
                    r.unwrap()@,
                    final(self).spec_data(),
                    final(self).spec_key_opt(),
                    final(self).spec_salt_opt(),
                    final(self).spec_created(),
                )
            },
    {
        match &mut self.data {
            None => Err(VaultError::Locked),
            Some(data) => {
                data.add_server(server);
                let bytes = self.save();
                Ok(bytes)
            },
        }
    }

    /// Removes the record with identity `id`.  Demands an unlocked vault
    /// (`Locked` otherwise).  When a record was removed, the new bytes of
    /// the vault file come back; when none carried that identity, the set
    /// is untouched and no new bytes are owed.
    pub fn remove_server(&mut self, id: u128) -> (r: Result<Option<Vec<u8>>, VaultError>)
        requires
            old(self).wf(),
        ensures
            final(self).wf(),
            r is Ok <==> old(self).spec_unlocked(),
            r is Err ==> r->Err_0 == VaultError::Locked && *final(self) == *old(self),
            r matches Ok(None) ==> !has_id(old(self).spec_data().servers, id) && state_eq(
                *final(self),
                *old(self),
            ),
            r matches Ok(Some(bytes)) ==> {
                &&& has_id(old(self).spec_data().servers, id)
                &&& !has_id(final(self).spec_data().servers, id)
                &&& final(self).spec_unlocked()
                &&& final(self).spec_key_opt() == old(self).spec_key_opt()
                &&& final(self).spec_salt_opt() == old(self).spec_salt_opt()
                &&& final(self).spec_created() == old(self).spec_created()
                &&& final(self).spec_data().version == old(self).spec_data().version
                &&& exists|i: int|
                    0 <= i < old(self).spec_data().servers.len() && old(self).spec_data().servers[i].id == id && final(self).spec_data().servers == old(self).spec_data().servers.remove(i)
                &&& file_holds(
                    bytes@,
                    final(self).spec_data(),
                    final(self).spec_key_opt(),
                    final(self).spec_salt_opt(),
                    final(self).spec_created(),
                )
            },
    {
        match &mut self.data {
            None => Err(VaultError::Locked),
            Some(data) => {
                let removed = data.remove_server(id);
                if removed {
                    let bytes = self.save();
                    proof {
                        let oldd = old(self).spec_data().servers;
                        let i = choose|i: int|
                            0 <= i < oldd.len() && oldd[i].id == id && self.spec_data().servers
                                == oldd.remove(i);
                        assert(0 <= i < oldd.len() && oldd[i].id == id && self.spec_data().servers
                            == oldd.remove(i));
                    }
                    Ok(Some(bytes))
                } else {
                    Ok(None)
                }
            },
        }
    }

    /// Overwrites the mutable fields of the record matching `server`'s
    /// identity, bumping its update time.  Demands an unlocked vault
    /// (`Locked` otherwise).  A hit returns the new file bytes; a miss
    /// returns `None` and leaves the set exactly as it was — never an
    /// implicit insert.
    #[verifier::rlimit(50)]
pub fn replace_server(&mut self, server: Server) -> (r: Result<Option<Vec<u8>>, VaultError>)
        requires
            old(self).wf(),
            server_wf(server@),
        ensures
            final(self).wf(),
            r is Ok <==> old(self).spec_unlocked(),
            r is Err ==> r->Err_0 == VaultError::Locked && *final(self) == *old(self),
            r matches Ok(None) ==> !has_id(old(self).spec_data().servers, server@.id)
                && state_eq(*final(self), *old(self)),
            r matches Ok(Some(bytes)) ==> {
                &&& has_id(old(self).spec_data().servers, server@.id)
                &&& final(self).spec_unlocked()
                &&& final(self).spec_key_opt() == old(self).spec_key_opt()
                &&& final(self).spec_salt_opt() == old(self).spec_salt_opt()
                &&& final(self).spec_created() == old(self).spec_created()
                &&& final(self).spec_data().version == old(self).spec_data().version
                &&& exists|i: int, t: u64|
                    0 <= i < old(self).spec_data().servers.len() && old(self).spec_data().servers[i].id == server@.id && final(self).spec_data().servers
                        == old(self).spec_data().servers.update(
                        i,
                        replaced_view(old(self).spec_data().servers[i], server@, t),
                    )
                &&& file_holds(
                    bytes@,
                    final(self).spec_data(),
                    final(self).spec_key_opt(),
                    final(self).spec_salt_opt(),
                    final(self).spec_created(),
                )
            },
    {
        match &mut self.data {
            None => Err(VaultError::Locked),
            Some(data) => {
                let now = now_ts();
                let replaced = data.replace_server(server, now);
                if replaced {
                    let bytes = self.save();
                    proof {
                        let oldd = old(self).spec_data().servers;
                        let i = choose|i: int|
                            0 <= i < oldd.len() && oldd[i].id == server@.id
                                && self.spec_data().servers == oldd.update(
                                i,
                                replaced_view(oldd[i], server@, now),
                            );
                        assert(0 <= i < oldd.len() && oldd[i].id == server@.id
                            && self.spec_data().servers == oldd.update(
                            i,
                            replaced_view(oldd[i], server@, now),
                        ));
                    }
                    Ok(Some(bytes))
                } else {
                    Ok(None)
                }
            },
        }
    }

    /// The records, in insertion order.  Demands an unlocked vault
    /// (`Locked` otherwise); a pure read, nothing is persisted.
    pub fn list_servers(&self) -> (r: Result<&Vec<Server>, VaultError>)
        ensures
            r is Ok <==> self.spec_unlocked(),
            r is Err ==> r->Err_0 == VaultError::Locked,
            r matches Ok(list) ==> views_of(list@) == self.spec_data().servers,
    {
        match &self.data {
            None => Err(VaultError::Locked),
            Some(data) => Ok(data.list_servers()),
        }
    }

    /// The record with identity `id`, if one is present.  Demands an
    /// unlocked vault (`Locked` otherwise); a pure read.
    pub fn find_server(&self, id: u128) -> (r: Result<Option<&Server>, VaultError>)
        ensures
            r is Ok <==> self.spec_unlocked(),
            r is Err ==> r->Err_0 == VaultError::Locked,
            r matches Ok(found) ==> {
                &&& found is Some <==> has_id(self.spec_data().servers, id)
                &&& (found matches Some(srv) ==> exists|i: int|
                    0 <= i < self.spec_data().servers.len() && self.spec_data().servers[i].id == id
                        && self.spec_data().servers[i] == srv@)
            },
    {
        match &self.data {
            None => Err(VaultError::Locked),
            Some(data) => Ok(data.find_server(id)),
        }
    }

    /// Overwrites the held key's bytes with zeroes, if a key is held.
    /// Called whenever the key is about to be dropped or replaced, so the
    /// secret does not linger in memory.
    fn wipe_key(&mut self)
        ensures
            final(self).data == old(self).data,
            final(self).salt == old(self).salt,
            final(self).created_at == old(self).created_at,
            final(self).master_key is Some <==> old(self).master_key is Some,
    {
        match &mut self.master_key {
            None => {},
            Some(k) => {
                k.wipe();
            },
        }
    }

    /// Serializes the in-memory set and wraps it in an envelope: sealed
    /// under the held key with a fresh nonce, or in the clear when no key
    /// is held.  The salt is the one the key was derived from — reused,
    /// never regenerated, so the stored salt can never diverge from the
    /// held key; only the nonce is new on every save.
    fn save(&self) -> (r: Vec<u8>)
        requires
            self.wf(),
            self.spec_unlocked(),
        ensures
            file_holds(
                r@,
                self.spec_data(),
                self.spec_key_opt(),
                self.spec_salt_opt(),
                self.spec_created(),
            ),
    {
        let data = self.data.as_ref().unwrap();
        let payload = encode_vault_data(data);
        let now = now_ts();
        let file = match &self.master_key {
            None => VaultFile {
                payload: VaultPayload::Plaintext(payload),
                created_at: self.created_at,
                updated_at: now,
            },
            Some(key) => {
                let salt = clone_bytes(self.salt.as_ref().unwrap());
                let (nonce, ciphertext) = key.encrypt(&payload);
                VaultFile {
                    payload: VaultPayload::Encrypted { salt, nonce, ciphertext },
                    created_at: self.created_at,
                    updated_at: now,
                }
            },
        };
        let bytes = encode_vault_file(&file);
        proof {
            crate::envelope::lemma_decode_encode_vault_file(file@);
            crate::codec::lemma_decode_encode_vault_data(self.spec_data());
        }
        bytes
    }
}

/// A copy of a byte vector.
fn clone_bytes(v: &Vec<u8>) -> (r: Vec<u8>)
    ensures
        r@ == v@,
{
    let mut out: Vec<u8> = Vec::new();
    let mut i: usize = 0;
    while i < v.len()
        invariant
            i <= v@.len(),
            out@ == v@.take(i as int),
        decreases v@.len() - i,
    {
        out.push(v[i]);
        proof {
            assert(out@ =~= v@.take(i + 1));
        }
        i = i + 1;
    }
    proof {
        assert(v@.take(v@.len() as int) =~= v@);
    }
    out
}

} // verus!
