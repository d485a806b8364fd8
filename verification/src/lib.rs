//! Password-based authenticated encryption for seed phrases and other
//! small secrets.
//!
//! A symmetric key is derived from user-supplied secrets (a passphrase and
//! an optional password) with PBKDF2 or Argon2, the payload is sealed with
//! AES-256-GCM, and the result is carried in a self-describing base64
//! container.  The advanced container format additionally embeds integrity
//! metadata (a SHA-256 digest of the ciphertext, sizes and labels) that is
//! checked before any decryption is attempted.

pub mod aead;
pub mod b64;
pub mod container;
pub mod crypto;
pub mod diceware;
pub mod digest;
pub mod errors;
pub mod integrity;
pub mod kdf;
pub mod mnemonic;
pub mod network;
pub mod numbers;
pub mod ops;
pub mod rng;
pub mod secret;
pub mod strutil;
pub mod wallet;
