use seedvault::integrity::encode_metadata;
use seedvault::integrity::parse_metadata;
use seedvault::integrity::FileIntegrityInfo;
use seedvault::kdf::make_derivation_label;
use seedvault::kdf::parse_derivation_label;
use seedvault::numbers::u32_from_le;
use seedvault::numbers::u32_to_le;
use seedvault::numbers::u64_to_dec;

fn sample_info() -> FileIntegrityInfo {
    FileIntegrityInfo {
        sha256_hash: "8f434346648f6b96df89dda901c5176b10a6d83961dd3c1ac88b59b2dc327aa4".to_string(),
        file_size: 29,
        created_at: "2026-01-02T03:04:05.000006Z".to_string(),
        encryption_method: "AES-256-GCM".to_string(),
        key_derivation: "pbkdf2-100000".to_string(),
    }
}

#[test]
fn test_metadata_wire_form() {
    // The record's wire form is the exact compact JSON text that other
    // implementations of this container write.
    let encoded = encode_metadata(&sample_info());
    assert_eq!(
        encoded,
        "{\"sha256_hash\":\"8f434346648f6b96df89dda901c5176b10a6d83961dd3c1ac88b59b2dc327aa4\",\"file_size\":29,\"created_at\":\"2026-01-02T03:04:05.000006Z\",\"encryption_method\":\"AES-256-GCM\",\"key_derivation\":\"pbkdf2-100000\"}"
    );
}

#[test]
fn test_metadata_roundtrip() {
    let info = sample_info();
    let encoded = encode_metadata(&info);
    let parsed = parse_metadata(&encoded).unwrap();
    assert_eq!(parsed.sha256_hash, info.sha256_hash);
    assert_eq!(parsed.file_size, info.file_size);
    assert_eq!(parsed.created_at, info.created_at);
    assert_eq!(parsed.encryption_method, info.encryption_method);
    assert_eq!(parsed.key_derivation, info.key_derivation);
}

#[test]
fn test_metadata_rejects_malformed() {
    assert!(parse_metadata("").is_none());
    assert!(parse_metadata("{}").is_none());
    assert!(parse_metadata("{\"sha256_hash\":\"ab\"").is_none());
    assert!(parse_metadata("{\"sha256_hash\":\"ab\",\"file_size\":x,\"created_at\":\"t\",\"encryption_method\":\"m\",\"key_derivation\":\"k\"}").is_none());
    // Trailing text is refused.
    let mut encoded = encode_metadata(&sample_info());
    encoded.push(' ');
    assert!(parse_metadata(&encoded).is_none());
}

#[test]
fn test_metadata_rejects_noncanonical_number() {
    let with_leading_zero = "{\"sha256_hash\":\"ab\",\"file_size\":029,\"created_at\":\"t\",\"encryption_method\":\"m\",\"key_derivation\":\"k\"}";
    assert!(parse_metadata(with_leading_zero).is_none());
}

#[test]
fn test_derivation_label_roundtrip() {
    let label = make_derivation_label("pbkdf2", 100000);
    assert_eq!(label, "pbkdf2-100000");
    let (method, iterations) = parse_derivation_label(&label);
    assert_eq!(method, "pbkdf2");
    assert_eq!(iterations, 100000);

    let (method, iterations) = parse_derivation_label("argon2-250");
    assert_eq!(method, "argon2");
    assert_eq!(iterations, 250);

    // A label without an iteration count falls back to the default.
    let (method, iterations) = parse_derivation_label("argon2");
    assert_eq!(method, "argon2");
    assert_eq!(iterations, 100000);

    // An unreadable count falls back to the default too.
    let (method, iterations) = parse_derivation_label("pbkdf2-many");
    assert_eq!(method, "pbkdf2");
    assert_eq!(iterations, 100000);
}

#[test]
fn test_le32_roundtrip() {
    for n in [0u32, 1, 255, 256, 65536, 0x01020304, u32::MAX] {
        let bytes = u32_to_le(n);
        assert_eq!(bytes.len(), 4);
        assert_eq!(u32_from_le(bytes[0], bytes[1], bytes[2], bytes[3]), n);
        assert_eq!(&bytes[..], &n.to_le_bytes());
    }
}

#[test]
fn test_u64_to_dec() {
    assert_eq!(u64_to_dec(0), "0");
    assert_eq!(u64_to_dec(7), "7");
    assert_eq!(u64_to_dec(100000), "100000");
    assert_eq!(u64_to_dec(u64::MAX), "18446744073709551615");
}

#[test]
fn test_export_integrity_hash() {
    let report = seedvault::ops::export_integrity_hash(&sample_info());
    assert!(report.starts_with("File Integrity Information\n==========================\n"));
    assert!(report.contains("SHA256 Hash: 8f434346648f6b96df89dda901c5176b10a6d83961dd3c1ac88b59b2dc327aa4"));
    assert!(report.contains("File Size: 29 bytes"));
    assert!(report.contains("Encryption: AES-256-GCM"));
    assert!(report.contains("Key Derivation: pbkdf2-100000"));
}
