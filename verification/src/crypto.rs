//! The boundary operations: password-based encryption and decryption in
//! the legacy and advanced container formats, integrity verification and
//! metadata extraction.

use vstd::prelude::*;

use crate::aead::aes256_gcm_decrypt;
use crate::aead::aes256_gcm_encrypt;
use crate::aead::aes_gcm_open;
use crate::aead::aes_gcm_seal;
use crate::aead::GCM_PLAINTEXT_MAX;
use crate::b64::b64_decode_of;
use crate::b64::b64_of;
use crate::b64::base64_decode;
use crate::b64::base64_encode;
use crate::container::advanced_container_of;
use crate::container::advanced_ct_of;
use crate::container::advanced_meta_of;
use crate::container::advanced_nonce_of;
use crate::container::advanced_salt_of;
use crate::container::advanced_sound;
use crate::container::encode_encrypted_with_metadata;
use crate::container::encode_legacy_container;
use crate::container::lemma_advanced_container_roundtrip;
use crate::container::parse_advanced_container;
use crate::container::parse_legacy_container;
use crate::container::legacy_container_of;
use crate::digest::sha256_hex;
use crate::digest::sha256_hex_of;
use crate::errors::CryptoError;
use crate::integrity::info_wf;
use crate::integrity::json_plain;
use crate::integrity::lemma_digits_json_plain;
use crate::integrity::lemma_hex_json_plain;
use crate::integrity::metadata_json_of;
use crate::integrity::now_rfc3339;
use crate::integrity::str_is_json_plain;
use crate::integrity::FileIntegrityInfo;
use crate::integrity::IntegrityInfoView;
use crate::kdf::derivation_label_of;
use crate::kdf::derive_key_pbkdf2;
use crate::kdf::derive_key_with_method;
use crate::kdf::derived_key_of;
use crate::kdf::label_iters_of;
use crate::kdf::label_method_of;
use crate::kdf::lemma_derivation_label_roundtrip;
use crate::kdf::make_derivation_label;
use crate::kdf::method_is_argon2;
use crate::kdf::parse_derivation_label;
use crate::kdf::pbkdf2_key32_of;
use crate::kdf::scrub_key;
use crate::kdf::secret_bytes_of;
use crate::kdf::PBKDF2_ITERATIONS;
use crate::rng::random_bytes;
use crate::strutil::string_from_utf8;

verus! {

/// The legacy format's key: PBKDF2 at the fixed iteration count.
pub open spec fn legacy_key_of(passphrase: Seq<char>, password: Seq<char>, salt: Seq<u8>) -> Seq<
    u8,
> {
    pbkdf2_key32_of(secret_bytes_of(passphrase, password), salt, PBKDF2_ITERATIONS)
}

/// A legacy wire text that encrypts `pt` under the secrets, with the
/// given salt and nonce.
pub open spec fn legacy_wire_ok(
    s: Seq<char>,
    passphrase: Seq<char>,
    password: Seq<char>,
    pt: Seq<char>,
    salt: Seq<u8>,
    nonce: Seq<u8>,
) -> bool {
    let key = legacy_key_of(passphrase, password, salt);
    let ct = aes_gcm_seal(key, nonce, vstd::utf8::encode_utf8(pt));
    &&& s == b64_of(legacy_container_of(salt, nonce, ct))
    &&& b64_decode_of(s) == Some(legacy_container_of(salt, nonce, ct))
    &&& aes_gcm_open(key, nonce, ct) == Some(vstd::utf8::encode_utf8(pt))
}

/// Some fresh salt and nonce make `s` a legacy encryption of `pt`
/// under the secrets.
pub open spec fn legacy_encrypts(
    s: Seq<char>,
    passphrase: Seq<char>,
    password: Seq<char>,
    pt: Seq<char>,
) -> bool {
    exists|salt: Seq<u8>, nonce: Seq<u8>|
        salt.len() == 16 && nonce.len() == 12 && #[trigger] legacy_wire_ok(
            s,
            passphrase,
            password,
            pt,
            salt,
            nonce,
        )
}

/// What opening a decoded legacy envelope under the secrets yields.
pub open spec fn legacy_open_of(passphrase: Seq<char>, password: Seq<char>, d: Seq<u8>) -> Option<
    Seq<u8>,
> {
    aes_gcm_open(
        legacy_key_of(passphrase, password, d.subrange(0, 16)),
        d.subrange(16, 28),
        d.skip(28),
    )
}

/// Encrypts a text in the legacy format: a fresh 16-byte salt and
/// 12-byte nonce, PBKDF2 at 100000 iterations over the combined secret,
/// AES-256-GCM, and base64 over `salt || nonce || ciphertext`.
#[verifier::rlimit(100)]
pub fn encrypt_data(plaintext: &str, passphrase: &str, password: &str) -> (r: Result<
    String,
    CryptoError,
>)
    ensures
        r is Ok <==> vstd::utf8::encode_utf8(plaintext@).len() <= GCM_PLAINTEXT_MAX,
        r matches Ok(s) ==> legacy_encrypts(s@, passphrase@, password@, plaintext@),
        r matches Err(e) ==> e is EncryptionFailed,
{
    let salt = random_bytes(16);
    let nonce = random_bytes(12);
    let mut key = match derive_key_pbkdf2(passphrase, password, salt.as_slice(), 100000) {
        Ok(k) => k,
        Err(e) => {
            return Err(e);
        },
    };
    let sealed = aes256_gcm_encrypt(key.as_slice(), nonce.as_slice(), plaintext.as_bytes());
    scrub_key(&mut key);
    match sealed {
        Some(ct) => {
            let container = encode_legacy_container(&salt, &nonce, &ct);
            let encoded = base64_encode(container.as_slice());
            proof {
                assert(legacy_wire_ok(
                    encoded@,
                    passphrase@,
                    password@,
                    plaintext@,
                    salt@,
                    nonce@,
                ));
                assert(exists|salt: Seq<u8>, nonce: Seq<u8>|
                    salt.len() == 16 && nonce.len() == 12 && #[trigger] legacy_wire_ok(
                        encoded@,
                        passphrase@,
                        password@,
                        plaintext@,
                        salt,
                        nonce,
                    ));
                assert(legacy_encrypts(encoded@, passphrase@, password@, plaintext@));
            }
            Ok(encoded)
        },
        None => Err(
            CryptoError::EncryptionFailed("plaintext is too long for AES-GCM".to_owned()),
        ),
    }
}

/// Decrypts a legacy container: base64, the fixed salt and nonce
/// fields, PBKDF2, AES-256-GCM, UTF-8.  Fails closed on bad base64, a
/// short container, a failed tag, or non-UTF-8 plaintext.
pub fn decrypt_data(encrypted_data: &str, passphrase: &str, password: &str) -> (r: Result<
    String,
    CryptoError,
>)
    ensures
        b64_decode_of(encrypted_data@) is None ==> (r matches Err(e) && e is InvalidData),
        b64_decode_of(encrypted_data@) matches Some(d) ==> {
            &&& d.len() < 28 ==> (r matches Err(e) && e is InvalidData)
            &&& (d.len() >= 28 && legacy_open_of(passphrase@, password@, d) is None) ==> (
            r matches Err(e) && e is DecryptionFailed)
            &&& d.len() >= 28 ==> (legacy_open_of(passphrase@, password@, d) matches Some(p)
                ==> {
                &&& !vstd::utf8::valid_utf8(p) ==> (r matches Err(e)
                    && e is DecryptionFailed)
                &&& vstd::utf8::valid_utf8(p) ==> (r matches Ok(t) && t@
                    == vstd::utf8::decode_utf8(p))
            })
        },
{
    let data = match base64_decode(encrypted_data) {
        Some(d) => d,
        None => {
            return Err(CryptoError::InvalidData("invalid base64 data".to_owned()));
        },
    };
    let (salt, nonce, ct) = match parse_legacy_container(&data) {
        Some(p) => p,
        None => {
            return Err(CryptoError::InvalidData("encrypted data too short".to_owned()));
        },
    };
    let mut key = match derive_key_pbkdf2(passphrase, password, salt.as_slice(), 100000) {
        Ok(k) => k,
        Err(e) => {
            return Err(e);
        },
    };
    let opened = aes256_gcm_decrypt(key.as_slice(), nonce.as_slice(), ct.as_slice());
    scrub_key(&mut key);
    match opened {
        Some(p) => {
            match string_from_utf8(p) {
                Some(t) => Ok(t),
                None => Err(
                    CryptoError::DecryptionFailed("invalid UTF-8 data".to_owned()),
                ),
            }
        },
        None => Err(CryptoError::DecryptionFailed("decryption failed".to_owned())),
    }
}

/// Round trip of the legacy path: decrypting what `encrypt_data`
/// produced, under the same passphrase and password, returns the
/// original plaintext; and encryption succeeds on every plaintext the
/// cipher accepts.
pub fn encrypt_decrypt_data_round_trip(plaintext: &str, passphrase: &str, password: &str) -> (r:
    Option<String>)
    ensures
        r matches Some(t) ==> t@ == plaintext@,
        vstd::utf8::encode_utf8(plaintext@).len() <= GCM_PLAINTEXT_MAX ==> r is Some,
{
    let encrypted = match encrypt_data(plaintext, passphrase, password) {
        Ok(c) => c,
        Err(_) => {
            return None;
        },
    };
    proof {
        assert(legacy_encrypts(encrypted@, passphrase@, password@, plaintext@));
        let (salt, nonce) = choose|salt: Seq<u8>, nonce: Seq<u8>|
            salt.len() == 16 && nonce.len() == 12 && #[trigger] legacy_wire_ok(
                encrypted@,
                passphrase@,
                password@,
                plaintext@,
                salt,
                nonce,
            );
        let key = legacy_key_of(passphrase@, password@, salt);
        let ct = aes_gcm_seal(key, nonce, vstd::utf8::encode_utf8(plaintext@));
        let d = legacy_container_of(salt, nonce, ct);
        assert(d.subrange(0, 16) =~= salt);
        assert(d.subrange(16, 28) =~= nonce);
        assert(d.skip(28) =~= ct);
        assert(legacy_open_of(passphrase@, password@, d) == Some(
            vstd::utf8::encode_utf8(plaintext@),
        ));
        vstd::utf8::encode_utf8_valid_utf8(plaintext@);
        vstd::utf8::encode_utf8_decode_utf8(plaintext@);
    }
    match decrypt_data(encrypted.as_str(), passphrase, password) {
        Ok(t) => Some(t),
        Err(_) => None,
    }
}

// ---------------------------------------------------------------------------
// The advanced format: requests, results and the boundary operations.
// ---------------------------------------------------------------------------
/// A request for an advanced encryption.  The optional fields default
/// to an empty password, the `"pbkdf2"` method tag and 100000
/// iterations.
pub struct AdvancedEncryptRequest {
    pub content: String,
    pub passphrase: String,
    pub password: Option<String>,
    pub key_derivation_method: Option<String>,
    pub iterations: Option<u32>,
}

/// The outcome of an advanced encryption: the container, its metadata
/// record, and the salt and nonce in base64.
pub struct AdvancedEncryptResult {
    pub encrypted_content: String,
    pub integrity_info: FileIntegrityInfo,
    pub salt: String,
    pub iv: String,
}

/// The outcome of a non-destructive integrity check.
pub struct IntegrityVerificationResult {
    pub is_valid: bool,
    pub expected_hash: String,
    pub actual_hash: String,
    pub message: String,
}

/// A request for a legacy encryption.
pub struct EncryptRequest {
    pub content: String,
    pub passphrase: String,
    pub password: String,
}

/// A request for a decryption, in either format.
pub struct DecryptRequest {
    pub encrypted_content: String,
    pub passphrase: String,
    pub password: String,
}

/// The password a request carries, an empty one by default.
pub open spec fn req_password(r: AdvancedEncryptRequest) -> Seq<char> {
    match r.password {
        Some(p) => p@,
        None => Seq::empty(),
    }
}

/// The method tag a request carries, `"pbkdf2"` by default.
pub open spec fn req_method(r: AdvancedEncryptRequest) -> Seq<char> {
    match r.key_derivation_method {
        Some(m) => m@,
        None => "pbkdf2"@,
    }
}

/// The iteration count a request carries, 100000 by default.
pub open spec fn req_iterations(r: AdvancedEncryptRequest) -> u32 {
    match r.iterations {
        Some(i) => i,
        None => 100000,
    }
}

/// An advanced wire text that encrypts `content` under the secrets,
/// with the given salt and nonce: the metadata record carries the
/// ciphertext digest, its length, the cipher label and the derivation
/// label, and the envelope carries the record beside the ciphertext.
pub open spec fn advanced_wire_ok(
    enc: Seq<char>,
    info: IntegrityInfoView,
    salt_txt: Seq<char>,
    iv_txt: Seq<char>,
    content: Seq<char>,
    passphrase: Seq<char>,
    password: Seq<char>,
    method: Seq<char>,
    iterations: u32,
    salt: Seq<u8>,
    nonce: Seq<u8>,
) -> bool {
    let key = derived_key_of(method, passphrase, password, salt, iterations);
    let ct = aes_gcm_seal(key, nonce, vstd::utf8::encode_utf8(content));
    let meta = vstd::utf8::encode_utf8(metadata_json_of(info));
    &&& salt.len() == 32
    &&& nonce.len() == 12
    &&& info.sha256_hash == sha256_hex_of(ct)
    &&& info.file_size == ct.len()
    &&& info.encryption_method == "AES-256-GCM"@
    &&& info.key_derivation == derivation_label_of(method, iterations)
    &&& info_wf(info)
    &&& meta.len() <= u32::MAX
    &&& enc == b64_of(advanced_container_of(meta, salt, nonce, ct))
    &&& b64_decode_of(enc) == Some(advanced_container_of(meta, salt, nonce, ct))
    &&& aes_gcm_open(key, nonce, ct) == Some(vstd::utf8::encode_utf8(content))
    &&& salt_txt == b64_of(salt)
    &&& iv_txt == b64_of(nonce)
}

/// Some fresh salt and nonce make the result an advanced encryption of
/// `content`.
pub open spec fn advanced_encrypts(
    enc: Seq<char>,
    info: IntegrityInfoView,
    salt_txt: Seq<char>,
    iv_txt: Seq<char>,
    content: Seq<char>,
    passphrase: Seq<char>,
    password: Seq<char>,
    method: Seq<char>,
    iterations: u32,
) -> bool {
    exists|salt: Seq<u8>, nonce: Seq<u8>|
        #[trigger] advanced_wire_ok(
            enc,
            info,
            salt_txt,
            iv_txt,
            content,
            passphrase,
            password,
            method,
            iterations,
            salt,
            nonce,
        )
}

/// A decoded envelope that the advanced path accepts: structurally
/// valid, with UTF-8 metadata that is some well-formed record's wire
/// form.
pub open spec fn advanced_parses(d: Seq<u8>) -> bool {
    &&& advanced_sound(d)
    &&& vstd::utf8::valid_utf8(advanced_meta_of(d))
    &&& exists|w: IntegrityInfoView|
        info_wf(w) && vstd::utf8::decode_utf8(advanced_meta_of(d)) == #[trigger] metadata_json_of(
            w,
        )
}

/// "AES-256-GCM" and any derivation label built from a plain tag stand
/// unescaped in the metadata record.
proof fn lemma_enc_label_plain()
    ensures
        json_plain("AES-256-GCM"@),
        "AES-256-GCM"@.len() == 11,
{
    reveal_strlit("AES-256-GCM");
    assert forall|i: int| 0 <= i < "AES-256-GCM"@.len() implies crate::integrity::json_plain_char(
        #[trigger] "AES-256-GCM"@[i],
    ) by {
        if i == 0 {
        } else if i == 1 {
        } else if i == 2 {
        } else if i == 3 {
        } else if i == 4 {
        } else if i == 5 {
        } else if i == 6 {
        } else if i == 7 {
        } else if i == 8 {
        } else if i == 9 {
        } else {
            assert(i == 10);
        }
    }
}

/// A derivation label from a plain tag is plain: the tag, a dash and
/// decimal digits.
proof fn lemma_label_plain(tag: Seq<char>, iterations: u32)
    requires
        json_plain(tag),
    ensures
        json_plain(derivation_label_of(tag, iterations)),
{
    crate::numbers::lemma_dec_of_val(iterations as nat);
    lemma_digits_json_plain(crate::numbers::dec_of(iterations as nat));
    let label = derivation_label_of(tag, iterations);
    assert forall|i: int| 0 <= i < label.len() implies crate::integrity::json_plain_char(
        #[trigger] label[i],
    ) by {
        if i < tag.len() {
            assert(label[i] == tag[i]);
        } else if i == tag.len() {
            assert(label[i] == '-');
        } else {
            assert(label[i] == crate::numbers::dec_of(iterations as nat)[i - tag.len() - 1]);
            assert(crate::integrity::json_plain_char(
                crate::numbers::dec_of(iterations as nat)[i - tag.len() - 1],
            ));
        }
    }
}

/// Encrypts a text in the advanced format: a fresh 32-byte salt and
/// 12-byte nonce, the requested key derivation, AES-256-GCM, a metadata
/// record with the ciphertext's SHA-256 digest, and the self-describing
/// envelope in base64.  A method tag that cannot stand in the metadata
/// record unescaped is rejected.
#[verifier::rlimit(100)]
pub fn encrypt_with_advanced_crypto(request: &AdvancedEncryptRequest) -> (r: Result<
    AdvancedEncryptResult,
    CryptoError,
>)
    ensures
        r matches Ok(res) ==> advanced_encrypts(
            res.encrypted_content@,
            res.integrity_info@,
            res.salt@,
            res.iv@,
            request.content@,
            request.passphrase@,
            req_password(*request),
            req_method(*request),
            req_iterations(*request),
        ),
        !json_plain(req_method(*request)) ==> (r matches Err(e) && e is EncryptionFailed),
        (vstd::utf8::encode_utf8(request.content@).len() <= GCM_PLAINTEXT_MAX && json_plain(
            req_method(*request),
        ) && req_method(*request).len() <= 1000000 && (method_is_argon2(req_method(*request))
            ==> secret_bytes_of(request.passphrase@, req_password(*request)).len()
            <= 0xFFFFFFFF)) ==> r is Ok,
        r matches Err(e) ==> (e is EncryptionFailed || e is KeyDerivationFailed),
{
    let password: &str = match &request.password {
        Some(p) => p.as_str(),
        None => "",
    };
    let method: &str = match &request.key_derivation_method {
        Some(m) => m.as_str(),
        None => "pbkdf2",
    };
    let iterations: u32 = match request.iterations {
        Some(i) => i,
        None => 100000,
    };
    proof {
        reveal_strlit("");
        assert(""@ =~= Seq::<char>::empty());
    }
    if !str_is_json_plain(method) {
        return Err(
            CryptoError::EncryptionFailed(
                "the key-derivation tag cannot stand in the metadata record".to_owned(),
            ),
        );
    }
    let salt = random_bytes(32);
    let iv = random_bytes(12);
    let mut key = match derive_key_with_method(
        method,
        request.passphrase.as_str(),
        password,
        salt.as_slice(),
        iterations,
    ) {
        Ok(k) => k,
        Err(e) => {
            return Err(e);
        },
    };
    let sealed = aes256_gcm_encrypt(
        key.as_slice(),
        iv.as_slice(),
        request.content.as_str().as_bytes(),
    );
    scrub_key(&mut key);
    let ct = match sealed {
        Some(c) => c,
        None => {
            return Err(
                CryptoError::EncryptionFailed("content is too long for AES-GCM".to_owned()),
            );
        },
    };
    let hash = sha256_hex(ct.as_slice());
    let created = now_rfc3339();
    let label = make_derivation_label(method, iterations);
    let info = FileIntegrityInfo {
        sha256_hash: hash,
        file_size: ct.len() as u64,
        created_at: created,
        encryption_method: "AES-256-GCM".to_owned(),
        key_derivation: label,
    };
    proof {
        lemma_enc_label_plain();
        lemma_label_plain(method@, iterations);
        lemma_hex_json_plain(info.sha256_hash@);
        assert(info_wf(info@));
    }
    let encoded = match encode_encrypted_with_metadata(&ct, &salt, &iv, &info) {
        Ok(s) => s,
        Err(e) => {
            proof {
                // The record is short: the digest has 64 characters,
                // the size at most 20 digits, the timestamp at most 40
                // characters, and the labels are bounded by the tag.
                crate::integrity::reveal_lits();
                crate::numbers::lemma_dec_of_len_u64(info.file_size);
                crate::numbers::lemma_dec_of_len_u32(iterations);
                crate::strutil::lemma_encode_utf8_len(metadata_json_of(info@));
            }
            return Err(e);
        },
    };
    let salt_txt = base64_encode(salt.as_slice());
    let iv_txt = base64_encode(iv.as_slice());
    let result = AdvancedEncryptResult {
        encrypted_content: encoded,
        integrity_info: info,
        salt: salt_txt,
        iv: iv_txt,
    };
    proof {
        assert(advanced_wire_ok(
            result.encrypted_content@,
            result.integrity_info@,
            result.salt@,
            result.iv@,
            request.content@,
            request.passphrase@,
            req_password(*request),
            req_method(*request),
            req_iterations(*request),
            salt@,
            iv@,
        ));
        assert(advanced_encrypts(
            result.encrypted_content@,
            result.integrity_info@,
            result.salt@,
            result.iv@,
            request.content@,
            request.passphrase@,
            req_password(*request),
            req_method(*request),
            req_iterations(*request),
        ));
    }
    Ok(result)
}

/// What the advanced decryption returns, given the record `w` that the
/// envelope `d` carries: an integrity failure before any key work, then
/// the derivation chosen by the record's label, then the tag check,
/// then UTF-8 recovery.
pub open spec fn advanced_outcome_ok(
    r: Result<String, CryptoError>,
    w: IntegrityInfoView,
    d: Seq<u8>,
    passphrase: Seq<char>,
    password: Seq<char>,
) -> bool {
    let ct = advanced_ct_of(d);
    let salt = advanced_salt_of(d);
    let nonce = advanced_nonce_of(d);
    let method = label_method_of(w.key_derivation);
    let iters = label_iters_of(w.key_derivation);
    let key = derived_key_of(method, passphrase, password, salt, iters);
    &&& sha256_hex_of(ct) != w.sha256_hash ==> (r matches Err(e) && e is IntegrityViolation)
    &&& sha256_hex_of(ct) == w.sha256_hash ==> {
        &&& (method_is_argon2(method) && secret_bytes_of(passphrase, password).len()
            > 0xFFFFFFFF) ==> (r matches Err(e) && e is KeyDerivationFailed)
        &&& (method_is_argon2(method) ==> secret_bytes_of(passphrase, password).len()
            <= 0xFFFFFFFF) ==> {
            &&& aes_gcm_open(key, nonce, ct) is None ==> (r matches Err(e)
                && e is DecryptionFailed)
            &&& aes_gcm_open(key, nonce, ct) matches Some(p) ==> {
                &&& !vstd::utf8::valid_utf8(p) ==> (r matches Err(e)
                    && e is DecryptionFailed)
                &&& vstd::utf8::valid_utf8(p) ==> (r matches Ok(t) && t@
                    == vstd::utf8::decode_utf8(p))
            }
        }
    }
}

/// Decrypts an advanced container: base64, the envelope, the stored
/// digest checked against the ciphertext before any key derivation,
/// the derivation the label names, AES-256-GCM, UTF-8.
pub fn decrypt_with_advanced_crypto(encrypted_content: &str, passphrase: &str, password: &str)
    -> (r: Result<String, CryptoError>)
    ensures
        b64_decode_of(encrypted_content@) is None ==> (r matches Err(e) && e is InvalidData),
        b64_decode_of(encrypted_content@) matches Some(d) ==> {
            &&& !advanced_parses(d) ==> (r matches Err(e) && e is InvalidData)
            &&& forall|w: IntegrityInfoView|
                (info_wf(w) && advanced_parses(d) && vstd::utf8::decode_utf8(
                    advanced_meta_of(d),
                ) == #[trigger] metadata_json_of(w)) ==> advanced_outcome_ok(
                    r,
                    w,
                    d,
                    passphrase@,
                    password@,
                )
        },
{
    let data = match base64_decode(encrypted_content) {
        Some(d) => d,
        None => {
            return Err(CryptoError::InvalidData("invalid base64 data".to_owned()));
        },
    };
    let (salt, nonce, ct, info) = match parse_advanced_container(&data) {
        Some(p) => p,
        None => {
            return Err(
                CryptoError::InvalidData("data cannot be read as an advanced container".to_owned()),
            );
        },
    };
    let actual = sha256_hex(ct.as_slice());
    if !(actual == info.sha256_hash) {
        return Err(
            CryptoError::IntegrityViolation(
                "file integrity verification failed - file may be corrupted or tampered with".to_owned(),
            ),
        );
    }
    let (method, iterations) = parse_derivation_label(info.key_derivation.as_str());
    let mut key = match derive_key_with_method(
        method.as_str(),
        passphrase,
        password,
        salt.as_slice(),
        iterations,
    ) {
        Ok(k) => k,
        Err(e) => {
            return Err(e);
        },
    };
    let opened = aes256_gcm_decrypt(key.as_slice(), nonce.as_slice(), ct.as_slice());
    scrub_key(&mut key);
    match opened {
        Some(p) => {
            match string_from_utf8(p) {
                Some(t) => Ok(t),
                None => Err(
                    CryptoError::DecryptionFailed("invalid UTF-8 data".to_owned()),
                ),
            }
        },
        None => Err(CryptoError::DecryptionFailed("decryption failed".to_owned())),
    }
}

/// Reads the envelope apart without decrypting: the ciphertext and the
/// metadata record.
pub fn parse_encrypted_with_metadata(encoded_data: &str) -> (r: Result<
    (Vec<u8>, FileIntegrityInfo),
    CryptoError,
>)
    ensures
        b64_decode_of(encoded_data@) is None ==> (r matches Err(e) && e is InvalidData),
        b64_decode_of(encoded_data@) matches Some(d) ==> {
            &&& !advanced_parses(d) ==> (r matches Err(e) && e is InvalidData)
            &&& forall|w: IntegrityInfoView|
                (info_wf(w) && advanced_parses(d) && vstd::utf8::decode_utf8(
                    advanced_meta_of(d),
                ) == #[trigger] metadata_json_of(w)) ==> (r matches Ok(p) && p.0@
                    == advanced_ct_of(d) && p.1@ == w)
        },
{
    let data = match base64_decode(encoded_data) {
        Some(d) => d,
        None => {
            return Err(CryptoError::InvalidData("invalid base64 data".to_owned()));
        },
    };
    match parse_advanced_container(&data) {
        Some((_salt, _nonce, ct, info)) => Ok((ct, info)),
        None => Err(
            CryptoError::InvalidData("data cannot be read as an advanced container".to_owned()),
        ),
    }
}

/// Checks the stored digest against the ciphertext without decrypting.
pub fn verify_file_integrity(encrypted_content: &str) -> (r: Result<
    IntegrityVerificationResult,
    CryptoError,
>)
    ensures
        b64_decode_of(encrypted_content@) is None ==> (r matches Err(e) && e is InvalidData),
        b64_decode_of(encrypted_content@) matches Some(d) ==> {
            &&& !advanced_parses(d) ==> (r matches Err(e) && e is InvalidData)
            &&& forall|w: IntegrityInfoView|
                (info_wf(w) && advanced_parses(d) && vstd::utf8::decode_utf8(
                    advanced_meta_of(d),
                ) == #[trigger] metadata_json_of(w)) ==> (r matches Ok(res) && res.is_valid == (
                sha256_hex_of(advanced_ct_of(d)) == w.sha256_hash) && res.expected_hash@
                    == w.sha256_hash && res.actual_hash@ == sha256_hex_of(advanced_ct_of(d)))
        },
{
    let data = match base64_decode(encrypted_content) {
        Some(d) => d,
        None => {
            return Err(CryptoError::InvalidData("invalid base64 data".to_owned()));
        },
    };
    let (_salt, _nonce, ct, info) = match parse_advanced_container(&data) {
        Some(p) => p,
        None => {
            return Err(
                CryptoError::InvalidData("data cannot be read as an advanced container".to_owned()),
            );
        },
    };
    let actual = sha256_hex(ct.as_slice());
    let is_valid = actual == info.sha256_hash;
    let message = if is_valid {
        "File integrity verified successfully".to_owned()
    } else {
        "File integrity verification failed - file may be corrupted or tampered with".to_owned()
    };
    Ok(
        IntegrityVerificationResult {
            is_valid,
            expected_hash: info.sha256_hash,
            actual_hash: actual,
            message,
        },
    )
}

/// Extracts the metadata record alone.
pub fn get_file_integrity_info(encrypted_content: &str) -> (r: Result<
    FileIntegrityInfo,
    CryptoError,
>)
    ensures
        b64_decode_of(encrypted_content@) is None ==> (r matches Err(e) && e is InvalidData),
        b64_decode_of(encrypted_content@) matches Some(d) ==> {
            &&& !advanced_parses(d) ==> (r matches Err(e) && e is InvalidData)
            &&& forall|w: IntegrityInfoView|
                (info_wf(w) && advanced_parses(d) && vstd::utf8::decode_utf8(
                    advanced_meta_of(d),
                ) == #[trigger] metadata_json_of(w)) ==> (r matches Ok(info) && info@ == w)
        },
{
    match parse_encrypted_with_metadata(encrypted_content) {
        Ok((_, info)) => Ok(info),
        Err(e) => Err(e),
    }
}

/// An ordinary method tag: plain text without `-`, as both built-in
/// tags are.
pub open spec fn ordinary_tag(m: Seq<char>) -> bool {
    json_plain(m) && (forall|i: int| 0 <= i < m.len() ==> m[i] != '-')
}

/// Round trip of the advanced path: under an ordinary method tag,
/// decrypting what `encrypt_with_advanced_crypto` produced, with the
/// same secrets, returns the original content; and the whole cycle
/// succeeds whenever the cipher accepts the content.
#[verifier::rlimit(100)]
pub fn encrypt_decrypt_advanced_round_trip(request: &AdvancedEncryptRequest) -> (r: Option<
    String,
>)
    ensures
        ordinary_tag(req_method(*request)) ==> (r matches Some(t) ==> t@ == request.content@),
        (vstd::utf8::encode_utf8(request.content@).len() <= GCM_PLAINTEXT_MAX && ordinary_tag(
            req_method(*request),
        ) && req_method(*request).len() <= 1000000 && (method_is_argon2(req_method(*request))
            ==> secret_bytes_of(request.passphrase@, req_password(*request)).len()
            <= 0xFFFFFFFF)) ==> r is Some,
{
    let password: &str = match &request.password {
        Some(p) => p.as_str(),
        None => "",
    };
    proof {
        reveal_strlit("");
        assert(""@ =~= Seq::<char>::empty());
    }
    let result = match encrypt_with_advanced_crypto(request) {
        Ok(res) => res,
        Err(_) => {
            return None;
        },
    };
    proof {
        let enc = result.encrypted_content@;
        let info = result.integrity_info@;
        let content = request.content@;
        let passphrase = request.passphrase@;
        let pw = req_password(*request);
        let method = req_method(*request);
        let iterations = req_iterations(*request);
        let (salt, nonce) = choose|salt: Seq<u8>, nonce: Seq<u8>|
            #[trigger] advanced_wire_ok(
                enc,
                info,
                result.salt@,
                result.iv@,
                content,
                passphrase,
                pw,
                method,
                iterations,
                salt,
                nonce,
            );
        let key = derived_key_of(method, passphrase, pw, salt, iterations);
        let ct = aes_gcm_seal(key, nonce, vstd::utf8::encode_utf8(content));
        let meta = vstd::utf8::encode_utf8(metadata_json_of(info));
        let d = advanced_container_of(meta, salt, nonce, ct);
        lemma_advanced_container_roundtrip(meta, salt, nonce, ct);
        vstd::utf8::encode_utf8_valid_utf8(metadata_json_of(info));
        vstd::utf8::encode_utf8_decode_utf8(metadata_json_of(info));
        assert(advanced_parses(d));
        if forall|i: int| 0 <= i < method.len() ==> #[trigger] method[i] != '-' {
            lemma_derivation_label_roundtrip(method, iterations);
        }
        vstd::utf8::encode_utf8_valid_utf8(content);
        vstd::utf8::encode_utf8_decode_utf8(content);
    }
    match decrypt_with_advanced_crypto(
        result.encrypted_content.as_str(),
        request.passphrase.as_str(),
        password,
    ) {
        Ok(t) => Some(t),
        Err(_) => None,
    }
}

} // verus!
