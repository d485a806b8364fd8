//! The authenticated cipher: AES-256-GCM with a 96-bit nonce and a
//! 128-bit tag appended to the ciphertext.

use vstd::prelude::*;
use aes_gcm::aead::Aead;
use aes_gcm::Aes256Gcm;
use aes_gcm::KeyInit;
use aes_gcm::Nonce;

use crate::errors::CryptoError;

verus! {

/// Key length in bytes of the 256-bit cipher.
pub const KEY_SIZE: usize = 32;

/// Nonce length in bytes.
pub const NONCE_SIZE: usize = 12;

/// Authentication tag length in bytes.
pub const TAG_SIZE: usize = 16;

/// The longest plaintext AES-GCM accepts, in bytes.
pub const GCM_PLAINTEXT_MAX: u64 = 0x1000000000;

/// What AES-256-GCM encryption produces: ciphertext with the 16-byte
/// tag appended, a function of key, nonce and plaintext alone.
pub uninterp spec fn aes_gcm_seal(key: Seq<u8>, nonce: Seq<u8>, plaintext: Seq<u8>) -> Seq<u8>;

/// What AES-256-GCM decryption recovers from a ciphertext-with-tag, or
/// `None` where the tag does not verify.
pub uninterp spec fn aes_gcm_open(key: Seq<u8>, nonce: Seq<u8>, ciphertext: Seq<u8>) -> Option<
    Seq<u8>,
>;

/// Relies on aes_gcm's `Aes256Gcm` through the aead `Aead` trait:
/// encryption appends the 16-byte tag, fails exactly when the plaintext
/// exceeds 2^36 bytes, and decryption under the same key and nonce
/// restores the plaintext.
#[verifier::external_body]
pub(crate) fn aes256_gcm_encrypt(key: &[u8], nonce: &[u8], plaintext: &[u8]) -> (r: Option<
    Vec<u8>,
>)
    requires
        key@.len() == KEY_SIZE,
        nonce@.len() == NONCE_SIZE,
    ensures
        r is Some <==> plaintext@.len() <= GCM_PLAINTEXT_MAX,
        r matches Some(c) ==> c@ == aes_gcm_seal(key@, nonce@, plaintext@),
        r matches Some(c) ==> c@.len() == plaintext@.len() + TAG_SIZE,
        r matches Some(c) ==> aes_gcm_open(key@, nonce@, c@) == Some(plaintext@),
{
    let cipher = match Aes256Gcm::new_from_slice(key) {
        Ok(c) => c,
        Err(_) => {
            return None;
        },
    };
    cipher.encrypt(Nonce::from_slice(nonce), plaintext).ok()
}

/// Relies on aes_gcm's `Aes256Gcm` through the aead `Aead` trait:
/// decryption fails exactly when the appended tag does not authenticate
/// the ciphertext under the key and nonce, and in particular on any
/// input shorter than the 16-byte tag.
#[verifier::external_body]
pub(crate) fn aes256_gcm_decrypt(key: &[u8], nonce: &[u8], ciphertext: &[u8]) -> (r: Option<
    Vec<u8>,
>)
    requires
        key@.len() == KEY_SIZE,
        nonce@.len() == NONCE_SIZE,
    ensures
        r is Some <==> aes_gcm_open(key@, nonce@, ciphertext@) is Some,
        r matches Some(p) ==> Some(p@) == aes_gcm_open(key@, nonce@, ciphertext@),
        r matches Some(p) ==> p@.len() + TAG_SIZE == ciphertext@.len(),
        ciphertext@.len() < TAG_SIZE ==> r is None,
{
    let cipher = match Aes256Gcm::new_from_slice(key) {
        Ok(c) => c,
        Err(_) => {
            return None;
        },
    };
    cipher.decrypt(Nonce::from_slice(nonce), ciphertext).ok()
}

/// Encrypts a text under an already-derived key and nonce, returning
/// ciphertext with the tag appended.
pub fn encrypt_data_advanced(plaintext: &str, key: &[u8; 32], iv: &[u8; 12]) -> (r: Result<
    Vec<u8>,
    CryptoError,
>)
    ensures
        r matches Ok(c) ==> c@ == aes_gcm_seal(
            key@,
            iv@,
            vstd::utf8::encode_utf8(plaintext@),
        ) && aes_gcm_open(key@, iv@, c@) == Some(vstd::utf8::encode_utf8(plaintext@))
            && c@.len() == vstd::utf8::encode_utf8(plaintext@).len() + TAG_SIZE,
        r is Ok <==> vstd::utf8::encode_utf8(plaintext@).len() <= GCM_PLAINTEXT_MAX,
{
    let pt = plaintext.as_bytes();
    match aes256_gcm_encrypt(key.as_slice(), iv.as_slice(), pt) {
        Some(c) => Ok(c),
        None => Err(
            CryptoError::EncryptionFailed(
                "plaintext is too long for AES-GCM".to_owned(),
            ),
        ),
    }
}

} // verus!
