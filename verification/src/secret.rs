//! Combining the two user secrets into one secret material.
//!
//! The rule is part of the wire contract: when the optional password is
//! empty the combined secret is the passphrase verbatim, otherwise it is
//! `passphrase + ":" + password`.  Changing the order or the separator
//! would break previously encrypted containers.

use vstd::prelude::*;
use zeroize::Zeroize;

verus! {

/// The combined secret as a sequence of characters: the passphrase alone
/// when the password is empty, otherwise passphrase, ':', password.
pub open spec fn combined_secret_of(passphrase: Seq<char>, password: Seq<char>) -> Seq<char> {
    if password.len() == 0 {
        passphrase
    } else {
        passphrase + seq![':'] + password
    }
}

/// Builds the combined secret material for key derivation.
pub fn combine_secret(passphrase: &str, password: &str) -> (r: String)
    ensures
        r@ == combined_secret_of(passphrase@, password@),
{
    proof {
        reveal_strlit(":");
    }
    if password.is_empty() {
        passphrase.to_owned()
    } else {
        let mut combined = passphrase.to_owned();
        combined.append(":");
        combined.append(password);
        proof {
            assert(":"@ =~= seq![':']);
            assert(combined@ =~= passphrase@ + seq![':'] + password@);
        }
        combined
    }
}

/// Overwrites the secret's backing bytes with zeros and empties it.
/// Relies on zeroize's `Zeroize for String`, which zeroizes the buffer
/// and truncates the string to length zero.
#[verifier::external_body]
pub(crate) fn scrub_secret(s: &mut String)
    ensures
        final(s)@.len() == 0,
{
    s.zeroize();
}

} // verus!
