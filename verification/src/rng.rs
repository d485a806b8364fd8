//! Fresh randomness for salts and nonces.

use vstd::prelude::*;
use rand::RngCore;

verus! {

/// Relies on rand's `thread_rng` and `RngCore::fill_bytes` for
/// cryptographically secure random bytes.  Nothing is assumed of the
/// values; only the length is fixed.
#[verifier::external_body]
pub(crate) fn random_bytes(n: usize) -> (r: Vec<u8>)
    ensures
        r@.len() == n,
{
    let mut v = vec![0u8; n];
    rand::thread_rng().fill_bytes(&mut v);
    v
}

} // verus!
