//! The error taxonomy of the cryptographic core.  Every failure carries
//! a human-readable detail string; the variant says which stage failed.

use vstd::prelude::*;

verus! {

/// A failure of an encryption, decryption or container operation.
#[derive(Debug, Clone)]
pub enum CryptoError {
    /// The cipher could not produce a ciphertext.
    EncryptionFailed(String),
    /// The authentication tag did not verify, or the recovered plaintext
    /// was not valid UTF-8.
    DecryptionFailed(String),
    /// The container was malformed: bad base64, truncated data, a wrong
    /// magic value or unreadable metadata.
    InvalidData(String),
    /// The ciphertext digest did not match the stored digest.
    IntegrityViolation(String),
    /// The key-derivation primitive rejected its parameters.
    KeyDerivationFailed(String),
}

impl CryptoError {
    /// The detail string carried by the error.
    pub fn detail(&self) -> (r: &String) {
        match self {
            CryptoError::EncryptionFailed(m) => m,
            CryptoError::DecryptionFailed(m) => m,
            CryptoError::InvalidData(m) => m,
            CryptoError::IntegrityViolation(m) => m,
            CryptoError::KeyDerivationFailed(m) => m,
        }
    }
}

/// An application-level failure: a validation or file problem, or a
/// wrapped failure of the cryptographic core.
#[derive(Debug)]
pub enum AppError {
    EncryptionError(String),
    DecryptionError(String),
    ValidationError(String),
    FileError(String),
    NetworkError(String),
    SeedPhraseError(String),
    CryptoError(CryptoError),
}

impl AppError {
    /// The detail string carried by the error.
    pub fn detail(&self) -> (r: String) {
        match self {
            AppError::EncryptionError(m) => m.clone(),
            AppError::DecryptionError(m) => m.clone(),
            AppError::ValidationError(m) => m.clone(),
            AppError::FileError(m) => m.clone(),
            AppError::NetworkError(m) => m.clone(),
            AppError::SeedPhraseError(m) => m.clone(),
            AppError::CryptoError(e) => e.detail().clone(),
        }
    }
}

} // verus!
