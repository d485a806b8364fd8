use base64::Engine;
use seedvault::crypto::decrypt_data;
use seedvault::crypto::decrypt_with_advanced_crypto;
use seedvault::crypto::encrypt_data;
use seedvault::crypto::encrypt_with_advanced_crypto;
use seedvault::crypto::get_file_integrity_info;
use seedvault::crypto::parse_encrypted_with_metadata;
use seedvault::crypto::verify_file_integrity;
use seedvault::crypto::AdvancedEncryptRequest;
use seedvault::errors::CryptoError;
use seedvault::kdf::derive_key_argon2;
use seedvault::kdf::derive_key_pbkdf2;

#[test]
fn test_encrypt_decrypt_roundtrip() {
    let plaintext = "Hello, World! This is a test message.";
    let passphrase = "correct horse battery staple";
    let password = "my_secret_password";

    let encrypted = encrypt_data(plaintext, passphrase, password).unwrap();
    let decrypted = decrypt_data(&encrypted, passphrase, password).unwrap();

    assert_eq!(plaintext, decrypted);
}

#[test]
fn test_wrong_password_fails() {
    let plaintext = "Hello, World!";
    let passphrase = "correct horse battery staple";
    let password = "my_secret_password";
    let wrong_password = "wrong_password";

    let encrypted = encrypt_data(plaintext, passphrase, password).unwrap();
    let result = decrypt_data(&encrypted, passphrase, wrong_password);

    assert!(result.is_err());
}

#[test]
fn test_wrong_passphrase_fails() {
    let plaintext = "Hello, World!";
    let passphrase = "correct horse battery staple";
    let wrong_passphrase = "incorrect horse battery staple";
    let password = "my_secret_password";

    let encrypted = encrypt_data(plaintext, passphrase, password).unwrap();
    let result = decrypt_data(&encrypted, wrong_passphrase, password);

    assert!(result.is_err());
}

#[test]
fn test_java_compatibility_format() {
    // The wire layout must stay as other implementations write it.
    let plaintext = "abandon abandon abandon abandon abandon abandon abandon abandon abandon abandon abandon about";
    let passphrase = "able abroad absence";
    let password = "mypassword123";

    let encrypted = encrypt_data(plaintext, passphrase, password).unwrap();
    let decrypted = decrypt_data(&encrypted, passphrase, password).unwrap();

    assert_eq!(plaintext, decrypted);

    let data = base64::engine::general_purpose::STANDARD.decode(&encrypted).unwrap();
    assert!(data.len() >= 16 + 12 + 16);

    assert_eq!(data.len(), 16 + 12 + (data.len() - 28));

    println!("encryption test successful:");
    println!("- Original text length: {} characters", plaintext.len());
    println!("- Encrypted result length: {} characters", encrypted.len());
    println!("- Binary data length: {} bytes", data.len());
    println!("- Format: Salt(16) + Nonce(12) + Ciphertext({})", data.len() - 28);
}

#[test]
fn test_cross_language_compatibility() {
    let plaintext = "abandon abandon abandon abandon abandon abandon abandon abandon abandon abandon abandon about";
    let passphrase = "able abroad absence";
    let password = "mypassword123";

    let encrypted = encrypt_data(plaintext, passphrase, password).unwrap();
    let decrypted = decrypt_data(&encrypted, passphrase, password).unwrap();

    assert_eq!(plaintext, decrypted);

    let data = base64::engine::general_purpose::STANDARD.decode(&encrypted).unwrap();

    assert_eq!(data.len(), 16 + 12 + (data.len() - 28));

    let salt = &data[0..16];
    let nonce = &data[16..28];
    let ciphertext = &data[28..];

    assert_eq!(salt.len(), 16);
    assert_eq!(nonce.len(), 12);
    assert!(ciphertext.len() > 0);
}

fn advanced_request(content: &str, passphrase: &str, password: Option<&str>, method: Option<&str>, iterations: Option<u32>) -> AdvancedEncryptRequest {
    AdvancedEncryptRequest {
        content: content.to_string(),
        passphrase: passphrase.to_string(),
        password: password.map(|p| p.to_string()),
        key_derivation_method: method.map(|m| m.to_string()),
        iterations,
    }
}

#[test]
fn test_advanced_roundtrip_pbkdf2() {
    let request = advanced_request("a small secret", "orbit lantern velvet", Some("pw"), Some("pbkdf2"), Some(1000));
    let result = encrypt_with_advanced_crypto(&request).unwrap();
    let decrypted = decrypt_with_advanced_crypto(&result.encrypted_content, "orbit lantern velvet", "pw").unwrap();
    assert_eq!(decrypted, "a small secret");
}

#[test]
fn test_advanced_roundtrip_argon2() {
    let request = advanced_request("another secret", "orbit lantern velvet", None, Some("argon2"), None);
    let result = encrypt_with_advanced_crypto(&request).unwrap();
    let decrypted = decrypt_with_advanced_crypto(&result.encrypted_content, "orbit lantern velvet", "").unwrap();
    assert_eq!(decrypted, "another secret");
}

#[test]
fn test_advanced_roundtrip_default_method() {
    let request = advanced_request("defaults all round", "orbit lantern velvet", None, None, None);
    let result = encrypt_with_advanced_crypto(&request).unwrap();
    let decrypted = decrypt_with_advanced_crypto(&result.encrypted_content, "orbit lantern velvet", "").unwrap();
    assert_eq!(decrypted, "defaults all round");
}

#[test]
fn test_format_negotiation_labels() {
    // The metadata read back from the container names the cipher and
    // the derivation exactly.
    let request = advanced_request("content", "orbit lantern velvet", None, Some("pbkdf2"), Some(100000));
    let result = encrypt_with_advanced_crypto(&request).unwrap();
    let info = get_file_integrity_info(&result.encrypted_content).unwrap();
    assert_eq!(info.encryption_method, "AES-256-GCM");
    assert_eq!(info.key_derivation, "pbkdf2-100000");

    let request = advanced_request("content", "orbit lantern velvet", None, Some("argon2"), Some(7));
    let result = encrypt_with_advanced_crypto(&request).unwrap();
    let info = get_file_integrity_info(&result.encrypted_content).unwrap();
    assert_eq!(info.encryption_method, "AES-256-GCM");
    assert_eq!(info.key_derivation, "argon2-7");
}

#[test]
fn test_tamper_sensitivity_legacy() {
    // Flipping any single ciphertext byte must break decryption.
    let passphrase = "orbit lantern velvet";
    let encrypted = encrypt_data("tamper target", passphrase, "").unwrap();
    let data = base64::engine::general_purpose::STANDARD.decode(&encrypted).unwrap();
    // The fixed iteration count makes each probe expensive; probing the
    // first, a middle and the last ciphertext byte keeps the test fast.
    for i in [28, (28 + data.len()) / 2, data.len() - 1] {
        let mut tampered = data.clone();
        tampered[i] ^= 0x01;
        let reencoded = base64::engine::general_purpose::STANDARD.encode(&tampered);
        assert!(decrypt_data(&reencoded, passphrase, "").is_err());
    }
}

#[test]
fn test_tamper_sensitivity_advanced() {
    // Flipping a ciphertext byte after the header must be caught by the
    // integrity check before any decryption.
    let request = advanced_request("tamper target", "orbit lantern velvet", None, None, Some(1000));
    let result = encrypt_with_advanced_crypto(&request).unwrap();
    let data = base64::engine::general_purpose::STANDARD.decode(&result.encrypted_content).unwrap();
    let meta_len = u32::from_le_bytes([data[8], data[9], data[10], data[11]]) as usize;
    let ct_start = 56 + meta_len;
    for i in ct_start..data.len() {
        let mut tampered = data.clone();
        tampered[i] ^= 0x01;
        let reencoded = base64::engine::general_purpose::STANDARD.encode(&tampered);
        let err = decrypt_with_advanced_crypto(&reencoded, "orbit lantern velvet", "").unwrap_err();
        assert!(matches!(err, CryptoError::IntegrityViolation(_)));
        let report = verify_file_integrity(&reencoded).unwrap();
        assert!(!report.is_valid);
    }
}

#[test]
fn test_integrity_report_on_intact_container() {
    let request = advanced_request("intact", "orbit lantern velvet", None, None, Some(1000));
    let result = encrypt_with_advanced_crypto(&request).unwrap();
    let report = verify_file_integrity(&result.encrypted_content).unwrap();
    assert!(report.is_valid);
    assert_eq!(report.expected_hash, report.actual_hash);
    assert_eq!(report.expected_hash, result.integrity_info.sha256_hash);
}

#[test]
fn test_wrong_secret_rejection_advanced() {
    let request = advanced_request("guard me", "orbit lantern velvet", Some("right"), None, Some(1000));
    let result = encrypt_with_advanced_crypto(&request).unwrap();
    assert!(decrypt_with_advanced_crypto(&result.encrypted_content, "orbit lantern velvet", "wrong").is_err());
    assert!(decrypt_with_advanced_crypto(&result.encrypted_content, "other passphrase words", "right").is_err());
}

#[test]
fn test_pbkdf2_determinism() {
    // Identical secret, salt and iteration count give byte-identical
    // keys.
    let salt = [7u8; 16];
    let k1 = derive_key_pbkdf2("phrase", "word", &salt, 2000).unwrap();
    let k2 = derive_key_pbkdf2("phrase", "word", &salt, 2000).unwrap();
    assert_eq!(k1, k2);
    let k3 = derive_key_pbkdf2("phrase", "word", &salt, 2001).unwrap();
    assert_ne!(k1, k3);
}

#[test]
fn test_argon2_determinism_and_salt_adjustment() {
    // The salt is truncated to sixteen bytes, or padded with zeros.
    let salt20 = [9u8; 20];
    let salt16 = [9u8; 16];
    let a = derive_key_argon2("phrase", "", &salt20, 1).unwrap();
    let b = derive_key_argon2("phrase", "", &salt16, 1).unwrap();
    assert_eq!(a, b);

    let short = [3u8; 5];
    let mut padded = [0u8; 16];
    padded[..5].copy_from_slice(&short);
    let c = derive_key_argon2("phrase", "", &short, 1).unwrap();
    let d = derive_key_argon2("phrase", "", &padded, 1).unwrap();
    assert_eq!(c, d);
}

#[test]
fn test_combined_secret_separator() {
    // passphrase + ":" + password is the wire contract: splitting the
    // same text differently must give a different key.
    let salt = [1u8; 16];
    let k1 = derive_key_pbkdf2("a:b", "c", &salt, 100).unwrap();
    let k2 = derive_key_pbkdf2("a", "b:c", &salt, 100).unwrap();
    assert_eq!(k1, k2);
    let k3 = derive_key_pbkdf2("ab", "c", &salt, 100).unwrap();
    assert_ne!(k1, k3);
    // An empty password means the passphrase is used verbatim.
    let k4 = derive_key_pbkdf2("a:b:c", "", &salt, 100).unwrap();
    assert_eq!(k1, k4);
}

#[test]
fn test_boundary_short_containers() {
    // Too-short input fails cleanly in both formats.
    let short = base64::engine::general_purpose::STANDARD.encode([0u8; 27]);
    let err = decrypt_data(&short, "p", "").unwrap_err();
    assert!(matches!(err, CryptoError::InvalidData(_)));

    let short_adv = base64::engine::general_purpose::STANDARD.encode([0u8; 55]);
    let err = decrypt_with_advanced_crypto(&short_adv, "p", "").unwrap_err();
    assert!(matches!(err, CryptoError::InvalidData(_)));
    assert!(matches!(parse_encrypted_with_metadata(&short_adv).unwrap_err(), CryptoError::InvalidData(_)));
}

#[test]
fn test_bad_base64_rejected() {
    let err = decrypt_data("@@@not-base64@@@", "p", "").unwrap_err();
    assert!(matches!(err, CryptoError::InvalidData(_)));
    let err = decrypt_with_advanced_crypto("@@@not-base64@@@", "p", "").unwrap_err();
    assert!(matches!(err, CryptoError::InvalidData(_)));
}

#[test]
fn test_bad_magic_rejected() {
    let mut data = vec![0u8; 80];
    data[0] = b'X';
    let encoded = base64::engine::general_purpose::STANDARD.encode(&data);
    let err = decrypt_with_advanced_crypto(&encoded, "p", "").unwrap_err();
    assert!(matches!(err, CryptoError::InvalidData(_)));
}

#[test]
fn test_example_scenario() {
    // Encrypt under a passphrase with no password; any non-empty
    // password must then fail, and the empty password must succeed.
    let plaintext = "correct horse battery staple";
    let passphrase = "apple banana cherry";
    let encrypted = encrypt_data(plaintext, passphrase, "").unwrap();
    assert!(decrypt_data(&encrypted, passphrase, "x").is_err());
    assert_eq!(decrypt_data(&encrypted, passphrase, "").unwrap(), plaintext);
}

#[test]
fn test_unknown_method_falls_back_to_pbkdf2() {
    // An unrecognized tag is a compatibility fallback, not an error.
    let request = advanced_request("fallback", "orbit lantern velvet", None, Some("whirlpool"), Some(1000));
    let result = encrypt_with_advanced_crypto(&request).unwrap();
    assert_eq!(result.integrity_info.key_derivation, "whirlpool-1000");
    let decrypted = decrypt_with_advanced_crypto(&result.encrypted_content, "orbit lantern velvet", "").unwrap();
    assert_eq!(decrypted, "fallback");
}

#[test]
fn test_advanced_result_fields() {
    let request = advanced_request("fields", "orbit lantern velvet", None, None, Some(1000));
    let result = encrypt_with_advanced_crypto(&request).unwrap();
    let salt = base64::engine::general_purpose::STANDARD.decode(&result.salt).unwrap();
    let iv = base64::engine::general_purpose::STANDARD.decode(&result.iv).unwrap();
    assert_eq!(salt.len(), 32);
    assert_eq!(iv.len(), 12);
    assert_eq!(result.integrity_info.sha256_hash.len(), 64);
    let (ct, info) = parse_encrypted_with_metadata(&result.encrypted_content).unwrap();
    assert_eq!(info.file_size as usize, ct.len());
    assert_eq!(info.sha256_hash, result.integrity_info.sha256_hash);
}

#[test]
fn test_encrypt_data_advanced_deterministic() {
    // Sealing is a pure function of key, nonce and plaintext.
    let key = [42u8; 32];
    let iv = [7u8; 12];
    let a = seedvault::aead::encrypt_data_advanced("fixed input", &key, &iv).unwrap();
    let b = seedvault::aead::encrypt_data_advanced("fixed input", &key, &iv).unwrap();
    assert_eq!(a, b);
    assert_eq!(a.len(), "fixed input".len() + 16);
    let c = seedvault::aead::encrypt_data_advanced("fixed inpux", &key, &iv).unwrap();
    assert_ne!(a, c);
}

#[test]
fn test_round_trip_laws() {
    // The executable statements of the round-trip laws.
    let t = seedvault::crypto::encrypt_decrypt_data_round_trip(
        "law check", "orbit lantern velvet", "pw",
    );
    assert_eq!(t.unwrap(), "law check");

    let request = advanced_request("law check", "orbit lantern velvet", None, Some("argon2"), None);
    let t = seedvault::crypto::encrypt_decrypt_advanced_round_trip(&request);
    assert_eq!(t.unwrap(), "law check");
}
