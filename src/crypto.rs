//! Sealing and opening file chunks with AES-256-GCM-SIV.
use crate::error::FsError;
use aes_gcm_siv::aead::{Aead, KeyInit};
use aes_gcm_siv::{Aes256GcmSiv, Nonce};
use vstd::prelude::*;
use vstd::string::StringSliceAdditionalSpecFns;

verus! {

/// Bytes of a cipher key.
pub const KEY_SIZE: usize = 32;

/// Bytes that sealing adds to a chunk: the authentication tag.
pub const TAG_SIZE: usize = 16;

/// Longest plaintext that AES-GCM-SIV seals.
pub const P_MAX: u64 = 68719476736;

/// The AES-256-GCM-SIV ciphertext of `plaintext` under `key` and `nonce`,
/// with no associated data.
pub uninterp spec fn aead_seal(key: Seq<u8>, nonce: Seq<u8>, plaintext: Seq<u8>) -> Seq<u8>;

/// The AES-256-GCM-SIV opening of `ciphertext` under `key` and `nonce`, with
/// no associated data: the plaintext, or nothing if authentication fails.
pub uninterp spec fn aead_open(key: Seq<u8>, nonce: Seq<u8>, ciphertext: Seq<u8>) -> Option<
    Seq<u8>,
>;

/// Relies on `Aes256GcmSiv::new_from_slice` and `Aead::encrypt` of
/// aes-gcm-siv: a 32-byte key builds the cipher, and encryption succeeds on
/// plaintexts up to `P_MAX` bytes, appending a 16-byte tag.
#[verifier::external_body]
fn seal(key: &[u8], nonce: &[u8], plaintext: &[u8]) -> (r: Option<Vec<u8>>)
    requires
        key@.len() == KEY_SIZE,
        nonce@.len() == 12,
        plaintext@.len() <= P_MAX,
    ensures
        r is Some,
        r is Some ==> r->0@ == aead_seal(key@, nonce@, plaintext@),
        r is Some ==> r->0@.len() == plaintext@.len() + TAG_SIZE,
{
    let cipher = Aes256GcmSiv::new_from_slice(key).ok()?;
    cipher.encrypt(Nonce::from_slice(nonce), plaintext).ok()
}

/// Relies on `Aes256GcmSiv::new_from_slice` and `Aead::decrypt` of
/// aes-gcm-siv: decryption under the key and nonce that sealed a plaintext
/// gives that plaintext back.
#[verifier::external_body]
fn open(key: &[u8], nonce: &[u8], ciphertext: &[u8]) -> (r: Option<Vec<u8>>)
    requires
        key@.len() == KEY_SIZE,
        nonce@.len() == 12,
    ensures
        r is Some ==> aead_open(key@, nonce@, ciphertext@) == Some(r->0@),
        r is None ==> aead_open(key@, nonce@, ciphertext@) is None,
        forall|p: Seq<u8>|
            #[trigger] aead_seal(key@, nonce@, p) == ciphertext@ && p.len() <= P_MAX ==> (r is Some
                && r->0@ == p),
{
    let cipher = Aes256GcmSiv::new_from_slice(key).ok()?;
    cipher.decrypt(Nonce::from_slice(nonce), ciphertext).ok()
}

/// The cipher key made from key material: its first 32 bytes.
pub fn cipher_key(material: &str) -> (r: Result<Vec<u8>, FsError>)
    ensures
        match r {
            Ok(k) => material.spec_bytes().len() >= KEY_SIZE && k@ == material.spec_bytes().take(
                KEY_SIZE as int,
            ),
            Err(e) => material.spec_bytes().len() < KEY_SIZE && e == FsError::KeyTooShort,
        },
{
    let b = material.as_bytes();
    if b.len() < KEY_SIZE {
        return Err(FsError::KeyTooShort);
    }
    Ok(vstd::slice::slice_to_vec(vstd::slice::slice_subrange(b, 0, KEY_SIZE)))
}

/// Seals one chunk.
pub fn seal_chunk(key: &[u8], nonce: &[u8; 12], chunk: &[u8]) -> (r: Vec<u8>)
    requires
        key@.len() == KEY_SIZE,
        chunk@.len() <= P_MAX,
    ensures
        r@ == aead_seal(key@, nonce@, chunk@),
        r@.len() == chunk@.len() + TAG_SIZE,
{
    match seal(key, nonce.as_slice(), chunk) {
        Some(c) => c,
        None => {
            proof {
                assert(false);
            }
            Vec::new()
        },
    }
}

/// Opens one chunk; fails when authentication fails.
pub fn open_chunk(key: &[u8], nonce: &[u8; 12], block: &[u8]) -> (r: Result<Vec<u8>, FsError>)
    requires
        key@.len() == KEY_SIZE,
    ensures
        match r {
            Ok(p) => aead_open(key@, nonce@, block@) == Some(p@),
            Err(e) => aead_open(key@, nonce@, block@) is None && e == FsError::DecryptionFailed,
        },
        forall|p: Seq<u8>|
            #[trigger] aead_seal(key@, nonce@, p) == block@ && p.len() <= P_MAX ==> (r matches Ok(q)
                && q@ == p),
{
    match open(key, nonce.as_slice(), block) {
        Some(p) => Ok(p),
        None => Err(FsError::DecryptionFailed),
    }
}

} // verus!
