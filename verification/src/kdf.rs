//! Key derivation: PBKDF2 with HMAC-SHA-256 and Argon2, selected by a
//! caller-supplied tag, each producing a 32-byte key from the combined
//! secret and a salt.
//!
//! The tag selection is by exact match on `"argon2"`; any other tag
//! falls back to PBKDF2.  The fallback is a deliberate compatibility
//! choice, not an error.

use vstd::prelude::*;
use pbkdf2::pbkdf2_hmac;
use sha2::Sha256;
use argon2::Argon2;
use zeroize::Zeroize;

use crate::errors::CryptoError;
use crate::numbers::all_dec_digits;
use crate::numbers::dec_of;
use crate::numbers::dec_val;
use crate::numbers::lemma_dec_of_val;
use crate::numbers::parse_u64_dec;
use crate::numbers::u64_to_dec;
use crate::secret::combine_secret;
use crate::secret::combined_secret_of;
use crate::secret::scrub_secret;
use crate::strutil::lemma_prefix_to_sep;
use crate::strutil::prefix_to_sep;
use crate::strutil::split_on;
use crate::strutil::split_on_char;
use crate::strutil::str_chars;
use crate::strutil::str_eq;

verus! {

/// The default PBKDF2 iteration count.
pub const PBKDF2_ITERATIONS: u32 = 100000;

/// What PBKDF2-HMAC-SHA-256 derives into a 32-byte key from a secret, a
/// salt and an iteration count.
pub uninterp spec fn pbkdf2_key32_of(secret: Seq<u8>, salt: Seq<u8>, iterations: u32) -> Seq<u8>;

/// What Argon2 with the crate's default parameters derives into a
/// 32-byte key from a secret and a 16-byte salt.
pub uninterp spec fn argon2_key32_of(secret: Seq<u8>, salt: Seq<u8>) -> Seq<u8>;

/// Relies on pbkdf2's `pbkdf2_hmac` with SHA-256: deterministic in
/// secret, salt and rounds; fills the whole 32-byte buffer; never fails
/// (HMAC accepts keys of any length).
#[verifier::external_body]
pub(crate) fn pbkdf2_hmac_sha256_32(secret: &[u8], salt: &[u8], iterations: u32) -> (r: [u8; 32])
    ensures
        r@ == pbkdf2_key32_of(secret@, salt@, iterations),
{
    let mut key = [0u8; 32];
    pbkdf2_hmac::<Sha256>(secret, salt, iterations, &mut key);
    key
}

/// Relies on argon2's `Argon2::default().hash_password_into`:
/// deterministic in secret and salt; with a 16-byte salt and a 32-byte
/// output buffer the crate checks only the salt bounds (8..=2^32), the
/// output bounds (4..=2^32) and the password length (<= 2^32), so the
/// call succeeds exactly when the secret is no longer than 2^32 - 1
/// bytes.
#[verifier::external_body]
pub(crate) fn argon2_default_32(secret: &[u8], salt: &[u8]) -> (r: Option<[u8; 32]>)
    requires
        salt@.len() == 16,
    ensures
        r is Some <==> secret@.len() <= 0xFFFFFFFF,
        r matches Some(k) ==> k@ == argon2_key32_of(secret@, salt@),
{
    let mut key = [0u8; 32];
    match Argon2::default().hash_password_into(secret, salt, &mut key) {
        Ok(()) => Some(key),
        Err(_) => None,
    }
}

/// Relies on zeroize's `Zeroize for [u8; 32]`: overwrites the key bytes
/// with zeros.
#[verifier::external_body]
pub(crate) fn scrub_key(key: &mut [u8; 32])
    ensures
        final(key)@ == Seq::new(32, |i: int| 0u8),
{
    key.zeroize();
}

/// The combined secret's bytes, as fed to both derivation primitives.
pub open spec fn secret_bytes_of(passphrase: Seq<char>, password: Seq<char>) -> Seq<u8> {
    vstd::utf8::encode_utf8(combined_secret_of(passphrase, password))
}

/// The salt as Argon2 receives it: truncated to its first 16 bytes, or
/// padded with zero bytes up to 16.
pub open spec fn argon2_salt_of(salt: Seq<u8>) -> Seq<u8> {
    if salt.len() >= 16 {
        salt.take(16)
    } else {
        salt + Seq::new((16 - salt.len()) as nat, |i: int| 0u8)
    }
}

/// Derives a 32-byte key with PBKDF2-HMAC-SHA-256 from the combined
/// secret.  Deterministic: the same secrets, salt and iteration count
/// always give the same key.  Never fails.
pub fn derive_key_pbkdf2(passphrase: &str, password: &str, salt: &[u8], iterations: u32) -> (r:
    Result<[u8; 32], CryptoError>)
    ensures
        r is Ok,
        r matches Ok(k) ==> k@ == pbkdf2_key32_of(
            secret_bytes_of(passphrase@, password@),
            salt@,
            iterations,
        ),
{
    let mut combined = combine_secret(passphrase, password);
    let key = pbkdf2_hmac_sha256_32(combined.as_str().as_bytes(), salt, iterations);
    scrub_secret(&mut combined);
    Ok(key)
}

/// Derives a 32-byte key with Argon2 (default cost parameters) from the
/// combined secret.  The iteration count is accepted for interface
/// symmetry and not forwarded.  The salt is truncated or zero-padded to
/// exactly 16 bytes.  Fails only when the combined secret exceeds the
/// primitive's length bound.
#[allow(unused_variables)]
pub fn derive_key_argon2(passphrase: &str, password: &str, salt: &[u8], iterations: u32) -> (r:
    Result<[u8; 32], CryptoError>)
    ensures
        r is Ok <==> secret_bytes_of(passphrase@, password@).len() <= 0xFFFFFFFF,
        r matches Ok(k) ==> k@ == argon2_key32_of(
            secret_bytes_of(passphrase@, password@),
            argon2_salt_of(salt@),
        ),
        r is Err ==> r->Err_0 is KeyDerivationFailed,
{
    let mut combined = combine_secret(passphrase, password);
    let mut salt16: Vec<u8> = Vec::new();
    let mut i: usize = 0;
    while i < 16 && i < salt.len()
        invariant
            i <= 16,
            i <= salt@.len(),
            salt16@ == salt@.take(i as int),
        decreases 16 - i,
    {
        let b = salt[i];
        salt16.push(b);
        i = i + 1;
        proof {
            assert(salt@.take(i as int) =~= salt@.take(i - 1).push(salt@[i - 1]));
        }
    }
    proof {
        if salt@.len() >= 16 {
            assert(salt16@ =~= argon2_salt_of(salt@).take(salt16@.len() as int));
        } else {
            assert(salt16@ =~= argon2_salt_of(salt@).take(salt16@.len() as int));
        }
    }
    while salt16.len() < 16
        invariant
            salt16@.len() <= 16,
            salt16@ == argon2_salt_of(salt@).take(salt16@.len() as int),
            salt16@.len() < 16 ==> salt16@.len() >= salt@.len(),
        decreases 16 - salt16@.len(),
    {
        let ghost pre = salt16@;
        salt16.push(0u8);
        proof {
            assert(argon2_salt_of(salt@)[pre.len() as int] == 0u8);
            assert(argon2_salt_of(salt@).take(pre.len() as int + 1) =~= pre.push(0u8));
        }
    }
    proof {
        assert(argon2_salt_of(salt@).len() == 16);
        assert(salt16@ =~= argon2_salt_of(salt@));
    }
    let r = argon2_default_32(combined.as_str().as_bytes(), salt16.as_slice());
    scrub_secret(&mut combined);
    match r {
        Some(k) => Ok(k),
        None => Err(
            CryptoError::KeyDerivationFailed(
                "Argon2 rejected its parameters".to_owned(),
            ),
        ),
    }
}

/// Determinism of the PBKDF2 derivation: identical secret, salt and
/// iteration count always give byte-identical 32-byte keys.
pub proof fn lemma_pbkdf2_deterministic(
    k1: Seq<u8>,
    k2: Seq<u8>,
    secret: Seq<u8>,
    salt: Seq<u8>,
    iterations: u32,
)
    requires
        k1 == pbkdf2_key32_of(secret, salt, iterations),
        k2 == pbkdf2_key32_of(secret, salt, iterations),
    ensures
        k1 == k2,
{
}

// ---------------------------------------------------------------------------
// Method tags and the key-derivation label.
// ---------------------------------------------------------------------------
/// Whether a method tag selects Argon2; every other tag falls back to
/// PBKDF2.
pub open spec fn method_is_argon2(tag: Seq<char>) -> bool {
    tag == seq!['a', 'r', 'g', 'o', 'n', '2']
}

/// The key a method tag derives for given secrets, salt and iterations.
pub open spec fn derived_key_of(
    tag: Seq<char>,
    passphrase: Seq<char>,
    password: Seq<char>,
    salt: Seq<u8>,
    iterations: u32,
) -> Seq<u8> {
    if method_is_argon2(tag) {
        argon2_key32_of(secret_bytes_of(passphrase, password), argon2_salt_of(salt))
    } else {
        pbkdf2_key32_of(secret_bytes_of(passphrase, password), salt, iterations)
    }
}

/// Derives the key that the method tag selects: Argon2 on the exact tag
/// `"argon2"`, PBKDF2 on every other tag.
pub fn derive_key_with_method(
    method: &str,
    passphrase: &str,
    password: &str,
    salt: &[u8],
    iterations: u32,
) -> (r: Result<[u8; 32], CryptoError>)
    ensures
        r matches Ok(k) ==> k@ == derived_key_of(
            method@,
            passphrase@,
            password@,
            salt@,
            iterations,
        ),
        r is Ok <==> (method_is_argon2(method@) ==> secret_bytes_of(passphrase@, password@).len()
            <= 0xFFFFFFFF),
        r is Err ==> r->Err_0 is KeyDerivationFailed,
{
    proof {
        reveal_strlit("argon2");
        assert("argon2"@ =~= seq!['a', 'r', 'g', 'o', 'n', '2']);
    }
    if str_eq(method, "argon2") {
        derive_key_argon2(passphrase, password, salt, iterations)
    } else {
        derive_key_pbkdf2(passphrase, password, salt, iterations)
    }
}

/// The key-derivation label stored in the metadata record:
/// `"<tag>-<iterations>"`.
pub open spec fn derivation_label_of(tag: Seq<char>, iterations: u32) -> Seq<char> {
    tag + seq!['-'] + dec_of(iterations as nat)
}

/// The method tag a label names: the text before its first `-`.
pub open spec fn label_method_of(label: Seq<char>) -> Seq<char> {
    split_on(label, '-')[0]
}

/// The iteration count a label names: its second `-`-separated field
/// when that is a run of digits with a value that fits a `u32`, and
/// 100000 otherwise.
pub open spec fn label_iters_of(label: Seq<char>) -> u32 {
    let fs = split_on(label, '-');
    if fs.len() >= 2 && fs[1].len() > 0 && all_dec_digits(fs[1]) && dec_val(fs[1]) <= u32::MAX {
        dec_val(fs[1]) as u32
    } else {
        100000
    }
}

/// Writes the key-derivation label.
pub fn make_derivation_label(tag: &str, iterations: u32) -> (r: String)
    ensures
        r@ == derivation_label_of(tag@, iterations),
{
    proof {
        reveal_strlit("-");
    }
    let mut r = tag.to_owned();
    r.append("-");
    let d = u64_to_dec(iterations as u64);
    r.append(d.as_str());
    proof {
        assert("-"@ =~= seq!['-']);
        assert(r@ =~= tag@ + seq!['-'] + dec_of(iterations as nat));
    }
    r
}

/// Reads a key-derivation label back into its method tag and iteration
/// count.
pub fn parse_derivation_label(label: &str) -> (r: (String, u32))
    ensures
        r.0@ == label_method_of(label@),
        r.1 == label_iters_of(label@),
{
    let chars = str_chars(label);
    let fields = split_on_char(&chars, '-');
    let ghost fs = split_on(label@, '-');
    proof {
        lemma_split_on_len(label@, '-');
    }
    let method = fields[0].clone();
    if fields.len() >= 2 {
        let second = str_chars(fields[1].as_str());
        match parse_u64_dec(&second, 0, second.len()) {
            Some(v) => {
                proof {
                    assert(second@.subrange(0, second@.len() as int) =~= fs[1]);
                }
                if v <= 0xFFFFFFFF {
                    (method, v as u32)
                } else {
                    (method, 100000)
                }
            },
            None => {
                proof {
                    assert(second@.subrange(0, second@.len() as int) =~= fs[1]);
                }
                (method, 100000)
            },
        }
    } else {
        (method, 100000)
    }
}

/// A separator split always yields at least one field.
pub proof fn lemma_split_on_len(s: Seq<char>, sep: char)
    ensures
        split_on(s, sep).len() >= 1,
{
    lemma_prefix_to_sep(s, sep);
}

/// Reading a label written from a `-`-free tag gives back the same tag
/// and the same iteration count.
pub proof fn lemma_derivation_label_roundtrip(tag: Seq<char>, iterations: u32)
    requires
        forall|i: int| 0 <= i < tag.len() ==> tag[i] != '-',
    ensures
        label_method_of(derivation_label_of(tag, iterations)) == tag,
        label_iters_of(derivation_label_of(tag, iterations)) == iterations,
{
    let d = dec_of(iterations as nat);
    let label = derivation_label_of(tag, iterations);
    lemma_dec_of_val(iterations as nat);
    assert(forall|i: int| 0 <= i < d.len() ==> #[trigger] d[i] != '-') by {
        assert(forall|i: int|
            0 <= i < d.len() ==> crate::numbers::is_dec_digit(#[trigger] d[i]));
    }
    assert(forall|i: int| 0 <= i < tag.len() ==> #[trigger] label[i] == tag[i]);
    assert(label[tag.len() as int] == '-');
    crate::strutil::lemma_prefix_to_sep_range(label, '-', 0, tag.len() as int);
    assert(label.skip(0) =~= label);
    assert(prefix_to_sep(label, '-') == label.subrange(0, tag.len() as int));
    assert(label.subrange(0, tag.len() as int) =~= tag);
    assert(split_on(label, '-') == seq![tag] + split_on(label.skip(tag.len() as int + 1), '-'));
    let rest = label.skip(tag.len() as int + 1);
    assert(rest =~= d);
    assert(forall|i: int| 0 <= i < d.len() ==> #[trigger] d[i] != '-');
    crate::strutil::lemma_prefix_to_sep_range(d, '-', 0, d.len() as int);
    assert(d.skip(0) =~= d);
    assert(prefix_to_sep(d, '-') =~= d);
    assert(split_on(d, '-') == seq![d]);
    assert(split_on(label, '-') =~= seq![tag, d]);
    assert(label_iters_of(label) == iterations);
}

} // verus!
