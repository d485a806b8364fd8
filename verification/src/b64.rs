//! The outer text encoding of every container: standard base64 with
//! padding.

use vstd::prelude::*;
use base64::Engine;

verus! {

/// What base64's STANDARD engine produces for a given byte sequence.
pub uninterp spec fn b64_of(b: Seq<u8>) -> Seq<char>;

/// What base64's STANDARD engine decodes a character sequence to, or
/// `None` where it reports an error.
pub uninterp spec fn b64_decode_of(s: Seq<char>) -> Option<Seq<u8>>;

/// Relies on base64's `Engine::encode` with the STANDARD engine
/// (standard alphabet, padded), whose `Engine::decode` restores the
/// input bytes.
#[verifier::external_body]
pub(crate) fn base64_encode(b: &[u8]) -> (r: String)
    ensures
        r@ == b64_of(b@),
        b64_decode_of(r@) == Some(b@),
{
    base64::engine::general_purpose::STANDARD.encode(b)
}

/// Relies on base64's `Engine::decode` with the STANDARD engine: it
/// fails exactly on input that is not valid padded standard base64.
#[verifier::external_body]
pub(crate) fn base64_decode(s: &str) -> (r: Option<Vec<u8>>)
    ensures
        r is Some <==> b64_decode_of(s@) is Some,
        r matches Some(v) ==> Some(v@) == b64_decode_of(s@),
{
    base64::engine::general_purpose::STANDARD.decode(s).ok()
}

} // verus!
