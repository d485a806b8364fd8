//! The content digest carried by the advanced container's metadata:
//! SHA-256 over the ciphertext, written as lowercase hex.

use vstd::prelude::*;
use sha2::Digest;
use sha2::Sha256;

verus! {

/// What the SHA-256 digest of a byte sequence looks like in lowercase
/// hex: 64 characters for the 32-byte digest.
pub uninterp spec fn sha256_hex_of(data: Seq<u8>) -> Seq<char>;

/// A lowercase hexadecimal digit.
pub open spec fn is_lower_hex_char(c: char) -> bool {
    0x30 <= (c as u32) <= 0x39 || 0x61 <= (c as u32) <= 0x66
}

/// Relies on sha2's `Sha256` and on the two-digits-per-byte lowercase
/// hex formatting of the digest.
#[verifier::external_body]
pub(crate) fn sha256_hex(data: &[u8]) -> (r: String)
    ensures
        r@ == sha256_hex_of(data@),
        r@.len() == 64,
        forall|i: int| 0 <= i < r@.len() ==> is_lower_hex_char(#[trigger] r@[i]),
{
    let mut hasher = Sha256::new();
    hasher.update(data);
    format!("{:x}", hasher.finalize())
}

} // verus!
