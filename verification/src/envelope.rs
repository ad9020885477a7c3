//! The persisted envelope: what actually stands in the vault file.
//!
//! An envelope carries either the credential set's payload bytes in the
//! clear, or a salt, a nonce and a ciphertext, plus the vault's creation
//! and last-update times.  Which of the two it is stands in the envelope
//! as an explicit tag, so an unencrypted vault can never be mistaken for
//! an encrypted one or the other way round.

use vstd::prelude::*;

use crate::codec::{
    dec_bytes, dec_u64, dec_u8, enc_bytes, enc_u64, enc_u8, fits_u64, spec_dec_bytes,
    spec_dec_u64, spec_dec_u8, spec_enc_bytes, spec_enc_u64, spec_enc_u8, lemma_dec_enc_bytes,
    lemma_dec_enc_u64, lemma_split_concat,
};
use crate::crypto::{NONCE_LEN, SALT_LEN};
use vstd::bytes::lemma_auto_spec_u64_to_from_le_bytes;

verus! {

/// The model of an envelope's payload.
pub enum PayloadView {
    Plaintext(Seq<u8>),
    Encrypted { salt: Seq<u8>, nonce: Seq<u8>, ciphertext: Seq<u8> },
}

/// An envelope's payload: the serialized credential set in the clear, or
/// a ciphertext together with the salt and nonce needed to open it.
pub enum VaultPayload {
    Plaintext(Vec<u8>),
    Encrypted { salt: Vec<u8>, nonce: Vec<u8>, ciphertext: Vec<u8> },
}

impl View for VaultPayload {
    type V = PayloadView;

    open spec fn view(&self) -> PayloadView {
        match self {
            VaultPayload::Plaintext(p) => PayloadView::Plaintext(p@),
            VaultPayload::Encrypted { salt, nonce, ciphertext } => PayloadView::Encrypted {
                salt: salt@,
                nonce: nonce@,
                ciphertext: ciphertext@,
            },
        }
    }
}

/// The model of a whole envelope.
pub struct VaultFileView {
    pub payload: PayloadView,
    pub created_at: u64,
    pub updated_at: u64,
}

/// The envelope as persisted: payload plus the vault's timestamps.
pub struct VaultFile {
    pub payload: VaultPayload,
    pub created_at: u64,
    pub updated_at: u64,
}

impl View for VaultFile {
    type V = VaultFileView;

    open spec fn view(&self) -> VaultFileView {
        VaultFileView {
            payload: self.payload@,
            created_at: self.created_at,
            updated_at: self.updated_at,
        }
    }
}

/// An encrypted envelope carries a salt and a nonce of the fixed lengths.
pub open spec fn vault_file_wf(v: VaultFileView) -> bool {
    match v.payload {
        PayloadView::Plaintext(_) => true,
        PayloadView::Encrypted { salt, nonce, ciphertext } => salt.len() == SALT_LEN
            && nonce.len() == NONCE_LEN,
    }
}

/// Whether an envelope's parts fit the format's length prefixes.
pub open spec fn vault_file_encodable(v: VaultFileView) -> bool {
    match v.payload {
        PayloadView::Plaintext(p) => fits_u64(p.len()),
        PayloadView::Encrypted { salt, nonce, ciphertext } => fits_u64(salt.len()) && fits_u64(
            nonce.len(),
        ) && fits_u64(ciphertext.len()),
    }
}

/// The encoding of an envelope: a tag byte telling plaintext from
/// ciphertext, the two timestamps, then the payload's parts.
pub open spec fn spec_enc_vault_file(v: VaultFileView) -> Seq<u8> {
    match v.payload {
        PayloadView::Plaintext(p) => spec_enc_u8(0) + (spec_enc_u64(v.created_at) + (spec_enc_u64(
            v.updated_at,
        ) + spec_enc_bytes(p))),
        PayloadView::Encrypted { salt, nonce, ciphertext } => spec_enc_u8(1) + (spec_enc_u64(
            v.created_at,
        ) + (spec_enc_u64(v.updated_at) + (spec_enc_bytes(salt) + (spec_enc_bytes(nonce)
            + spec_enc_bytes(ciphertext))))),
    }
}

/// Reads a whole envelope.  Every byte must be consumed; an encrypted
/// envelope must carry a salt and a nonce of the fixed lengths.
pub open spec fn spec_decode_vault_file(b: Seq<u8>) -> Option<VaultFileView> {
    match spec_dec_u8(b, 0) {
        None => None,
        Some((tag, p0)) => match spec_dec_u64(b, p0) {
            None => None,
            Some((created, p1)) => match spec_dec_u64(b, p1) {
                None => None,
                Some((updated, p2)) => if tag == 0 {
                    match spec_dec_bytes(b, p2) {
                        None => None,
                        Some((payload, p3)) => if p3 == b.len() {
                            Some(
                                VaultFileView {
                                    payload: PayloadView::Plaintext(payload),
                                    created_at: created,
                                    updated_at: updated,
                                },
                            )
                        } else {
                            None
                        },
                    }
                } else if tag == 1 {
                    match spec_dec_bytes(b, p2) {
                        None => None,
                        Some((salt, p3)) => match spec_dec_bytes(b, p3) {
                            None => None,
                            Some((nonce, p4)) => match spec_dec_bytes(b, p4) {
                                None => None,
                                Some((ciphertext, p5)) => if p5 == b.len() && salt.len()
                                    == SALT_LEN && nonce.len() == NONCE_LEN {
                                    Some(
                                        VaultFileView {
                                            payload: PayloadView::Encrypted {
                                                salt,
                                                nonce,
                                                ciphertext,
                                            },
                                            created_at: created,
                                            updated_at: updated,
                                        },
                                    )
                                } else {
                                    None
                                },
                            },
                        },
                    }
                } else {
                    None
                },
            },
        },
    }
}

/// Decoding undoes encoding for envelopes.
#[verifier::rlimit(50)]
pub proof fn lemma_decode_encode_vault_file(v: VaultFileView)
    requires
        vault_file_encodable(v),
        vault_file_wf(v),
    ensures
        spec_decode_vault_file(spec_enc_vault_file(v)) == Some(v),
{
    let b = spec_enc_vault_file(v);
    lemma_auto_spec_u64_to_from_le_bytes();
    assert(b.subrange(0, b.len() as int) =~= b);
    match v.payload {
        PayloadView::Plaintext(p) => {
            let e1 = spec_enc_u8(0);
            let e2 = spec_enc_u64(v.created_at);
            let e3 = spec_enc_u64(v.updated_at);
            let e4 = spec_enc_bytes(p);
            let s2 = e2 + (e3 + e4);
            assert(e2.len() == 8);
            assert(e3.len() == 8);
            lemma_split_concat(b, 0, e1, s2);
            assert(b[0] == e1[0]);
            lemma_split_concat(b, 1, e2, e3 + e4);
            lemma_dec_enc_u64(b, 1, v.created_at);
            lemma_split_concat(b, 9, e3, e4);
            lemma_dec_enc_u64(b, 9, v.updated_at);
            lemma_dec_enc_bytes(b, 17, p);
        },
        PayloadView::Encrypted { salt, nonce, ciphertext } => {
            let e1 = spec_enc_u8(1);
            let e2 = spec_enc_u64(v.created_at);
            let e3 = spec_enc_u64(v.updated_at);
            let e4 = spec_enc_bytes(salt);
            let e5 = spec_enc_bytes(nonce);
            let e6 = spec_enc_bytes(ciphertext);
            let s5 = e5 + e6;
            let s4 = e4 + s5;
            let s3 = e3 + s4;
            let s2 = e2 + s3;
            assert(e2.len() == 8);
            assert(e3.len() == 8);
            lemma_split_concat(b, 0, e1, s2);
            assert(b[0] == e1[0]);
            lemma_split_concat(b, 1, e2, s3);
            lemma_dec_enc_u64(b, 1, v.created_at);
            lemma_split_concat(b, 9, e3, s4);
            lemma_dec_enc_u64(b, 9, v.updated_at);
            lemma_split_concat(b, 17, e4, s5);
            lemma_dec_enc_bytes(b, 17, salt);
            let p3: int = 17 + e4.len() as int;
            lemma_split_concat(b, p3, e5, e6);
            lemma_dec_enc_bytes(b, p3, nonce);
            lemma_dec_enc_bytes(b, p3 + e5.len(), ciphertext);
        },
    }
}

/// Turns an envelope into the bytes of the vault file.
#[verifier::rlimit(50)]
pub fn encode_vault_file(f: &VaultFile) -> (r: Vec<u8>)
    ensures
        r@ == spec_enc_vault_file(f@),
        vault_file_encodable(f@),
{
    let mut out: Vec<u8> = Vec::new();
    match &f.payload {
        VaultPayload::Plaintext(p) => {
            enc_u8(&mut out, 0);
            enc_u64(&mut out, f.created_at);
            enc_u64(&mut out, f.updated_at);
            // Surfaces that the payload's length is machine-bounded, which
            // is what the encodable predicate asks.
            let n: usize = p.len();
            enc_bytes(&mut out, p);
            proof {
                assert(out@ =~= spec_enc_vault_file(f@));
            }
        },
        VaultPayload::Encrypted { salt, nonce, ciphertext } => {
            enc_u8(&mut out, 1);
            enc_u64(&mut out, f.created_at);
            enc_u64(&mut out, f.updated_at);
            // Surfaces that the parts' lengths are machine-bounded, which
            // is what the encodable predicate asks.
            let n1: usize = salt.len();
            let n2: usize = nonce.len();
            let n3: usize = ciphertext.len();
            enc_bytes(&mut out, salt);
            enc_bytes(&mut out, nonce);
            enc_bytes(&mut out, ciphertext);
            proof {
                assert(out@ =~= spec_enc_vault_file(f@));
            }
        },
    }
    out
}

/// Reads an envelope back from the bytes of the vault file.  Succeeds
/// exactly when the bytes are a well-formed encoding; the result then
/// carries a salt and nonce of the fixed lengths if it is encrypted.
pub fn decode_vault_file(b: &Vec<u8>) -> (r: Option<VaultFile>)
    ensures
        r is Some <==> spec_decode_vault_file(b@) is Some,
        r matches Some(f) ==> spec_decode_vault_file(b@) == Some(f@) && vault_file_wf(f@),
{
    match dec_u8(b, 0) {
        None => None,
        Some((tag, p0)) => match dec_u64(b, p0) {
            None => None,
            Some((created, p1)) => match dec_u64(b, p1) {
                None => None,
                Some((updated, p2)) => {
                    if tag == 0 {
                        match dec_bytes(b, p2) {
                            None => None,
                            Some((payload, p3)) => {
                                if p3 == b.len() {
                                    Some(
                                        VaultFile {
                                            payload: VaultPayload::Plaintext(payload),
                                            created_at: created,
                                            updated_at: updated,
                                        },
                                    )
                                } else {
                                    None
                                }
                            },
                        }
                    } else if tag == 1 {
                        match dec_bytes(b, p2) {
                            None => None,
                            Some((salt, p3)) => match dec_bytes(b, p3) {
                                None => None,
                                Some((nonce, p4)) => match dec_bytes(b, p4) {
                                    None => None,
                                    Some((ciphertext, p5)) => {
                                        if p5 == b.len() && salt.len() == SALT_LEN && nonce.len()
                                            == NONCE_LEN {
                                            Some(
                                                VaultFile {
                                                    payload: VaultPayload::Encrypted {
                                                        salt,
                                                        nonce,
                                                        ciphertext,
                                                    },
                                                    created_at: created,
                                                    updated_at: updated,
                                                },
                                            )
                                        } else {
                                            None
                                        }
                                    },
                                },
                            },
                        }
                    } else {
                        None
                    }
                },
            },
        },
    }
}

} // verus!
