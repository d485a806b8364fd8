use seedvault::diceware::WordList;
use seedvault::errors::AppError;
use seedvault::ops::decrypt_content;
use seedvault::ops::encrypt_seed_phrase;
use seedvault::ops::encrypt_seed_phrase_with_wallet_metadata;
use seedvault::ops::format_seed_phrase;
use seedvault::ops::get_security_reminder_config;
use seedvault::wallet::WalletMetadata;
use seedvault::wallet::WalletType;

const VALID_PHRASE: &str = "abandon abandon abandon abandon abandon abandon abandon abandon abandon abandon abandon about";

fn passphrase_wordlist() -> WordList {
    let mut wordlist = WordList::new();
    for w in ["orbit", "lantern", "velvet"] {
        wordlist.insert(w.to_string());
    }
    wordlist
}

#[test]
fn test_encrypt_seed_phrase_and_decrypt_content() {
    let wordlist = passphrase_wordlist();
    let encrypted =
        encrypt_seed_phrase(VALID_PHRASE, "orbit lantern velvet", None, &wordlist).unwrap();
    let decrypted =
        decrypt_content(&encrypted, "orbit lantern velvet", "", &wordlist).unwrap();
    assert_eq!(decrypted, VALID_PHRASE);
}

#[test]
fn test_encrypt_seed_phrase_rejects_bad_inputs() {
    let wordlist = passphrase_wordlist();
    let bad_phrase = encrypt_seed_phrase("not a phrase", "orbit lantern velvet", None, &wordlist);
    assert!(matches!(bad_phrase.unwrap_err(), AppError::SeedPhraseError(_)));
    let bad_passphrase = encrypt_seed_phrase(VALID_PHRASE, "unknown words here", None, &wordlist);
    assert!(matches!(bad_passphrase.unwrap_err(), AppError::ValidationError(_)));
}

#[test]
fn test_encrypt_with_wallet_metadata_names_the_file() {
    let wordlist = passphrase_wordlist();
    let metadata = WalletMetadata {
        label: "Savings".to_string(),
        wallet_type: WalletType::ColdWallet,
        created_at: "20260101_120000".to_string(),
        seed_phrase_word_count: None,
    };
    let result = encrypt_seed_phrase_with_wallet_metadata(
        VALID_PHRASE,
        "orbit lantern velvet",
        Some("pw"),
        Some(metadata),
        &wordlist,
    )
    .unwrap();
    assert_eq!(result.suggested_filename, "Savings_Cold Wallet_12words_20260101_120000.bin");
    let info = result.wallet_info.unwrap();
    assert_eq!(info.seed_phrase_word_count, Some(12));
    let decrypted =
        decrypt_content(&result.encrypted_content, "orbit lantern velvet", "pw", &wordlist)
            .unwrap();
    assert_eq!(decrypted, VALID_PHRASE);
}

#[test]
fn test_format_seed_phrase_ok_and_rejected() {
    let formatted = format_seed_phrase("  Abandon   ABANDON abandon abandon abandon abandon abandon abandon abandon abandon abandon About ").unwrap();
    assert_eq!(formatted, VALID_PHRASE);
    assert!(matches!(
        format_seed_phrase("three words only").unwrap_err(),
        AppError::SeedPhraseError(_)
    ));
}

#[test]
fn test_security_reminder_config_defaults() {
    let config = get_security_reminder_config();
    assert!(config.show_first_time_guide);
    assert!(config.show_post_encryption_reminder);
    assert!(config.show_post_decryption_reminder);
    assert!(config.integrate_with_network_checks);
}
