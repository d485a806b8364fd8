//! The application-facing operations around the core: validation
//! followed by encryption or decryption, seed-phrase formatting, the
//! advisory status texts and the integrity report.

use vstd::prelude::*;

use crate::aead::GCM_PLAINTEXT_MAX;
use crate::b64::b64_decode_of;
use crate::crypto::decrypt_data;
use crate::crypto::encrypt_data;
use crate::crypto::legacy_encrypts;
use crate::crypto::legacy_open_of;
use crate::diceware::passphrase_valid;
use crate::diceware::validate_passphrase;
use crate::diceware::WordList;
use crate::errors::AppError;
use crate::integrity::FileIntegrityInfo;
use crate::mnemonic::format_valid;
use crate::mnemonic::mnemonic_valid;
use crate::mnemonic::MnemonicFormatter;
use crate::mnemonic::SeedPhraseFormatResult;
use crate::mnemonic::SeedPhraseValidator;
use crate::network::NetworkStatus;
use crate::numbers::dec_of;
use crate::numbers::u64_to_dec;
use crate::strutil::join_space;
use crate::strutil::lower_of;
use crate::strutil::split_ws;
use crate::wallet::generate_wallet_filename;
use crate::wallet::now_compact_timestamp;
use crate::wallet::wallet_filename_of;
use crate::wallet::WalletInfo;
use crate::wallet::WalletMetadata;

verus! {

/// The outcome of encrypting a seed phrase together with its wallet
/// metadata.
pub struct EncryptWithMetadataResult {
    pub encrypted_content: String,
    pub suggested_filename: String,
    pub wallet_info: Option<WalletInfo>,
}

/// Which security reminders the interface should show.
pub struct SecurityReminderConfig {
    pub show_first_time_guide: bool,
    pub show_post_encryption_reminder: bool,
    pub show_post_decryption_reminder: bool,
    pub integrate_with_network_checks: bool,
}

/// The default reminder configuration: every reminder on.
pub fn get_security_reminder_config() -> (r: SecurityReminderConfig)
    ensures
        r.show_first_time_guide,
        r.show_post_encryption_reminder,
        r.show_post_decryption_reminder,
        r.integrate_with_network_checks,
{
    SecurityReminderConfig {
        show_first_time_guide: true,
        show_post_encryption_reminder: true,
        show_post_decryption_reminder: true,
        integrate_with_network_checks: true,
    }
}

/// Validates the seed phrase and the passphrase, then encrypts the
/// phrase in the legacy format.  A missing password counts as empty.
pub fn encrypt_seed_phrase(
    seed_phrase: &str,
    passphrase: &str,
    password: Option<&str>,
    wordlist: &WordList,
) -> (r: Result<String, AppError>)
    ensures
        !mnemonic_valid(seed_phrase@) ==> (r matches Err(e) && e is SeedPhraseError),
        mnemonic_valid(seed_phrase@) && !passphrase_valid(passphrase@, wordlist@) ==> (
        r matches Err(e) && e is ValidationError),
        r matches Ok(s) ==> legacy_encrypts(
            s@,
            passphrase@,
            match password {
                Some(p) => p@,
                None => Seq::empty(),
            },
            seed_phrase@,
        ),
        (mnemonic_valid(seed_phrase@) && passphrase_valid(passphrase@, wordlist@)
            && vstd::utf8::encode_utf8(seed_phrase@).len() <= GCM_PLAINTEXT_MAX) ==> r is Ok,
{
    let validator = SeedPhraseValidator::new();
    let seed_validation = validator.validate_mnemonic(seed_phrase);
    if !seed_validation.is_valid {
        return Err(AppError::SeedPhraseError("Seed phrase validation failed".to_owned()));
    }
    let validation = validate_passphrase(passphrase, wordlist);
    if !validation.is_valid {
        return Err(AppError::ValidationError("Invalid passphrase".to_owned()));
    }
    let password: &str = match password {
        Some(p) => p,
        None => "",
    };
    proof {
        reveal_strlit("");
        assert(""@ =~= Seq::<char>::empty());
    }
    match encrypt_data(seed_phrase, passphrase, password) {
        Ok(s) => Ok(s),
        Err(e) => Err(AppError::EncryptionError(e.detail().clone())),
    }
}

/// Validates the passphrase, then decrypts a legacy container.
pub fn decrypt_content(
    encrypted_content: &str,
    passphrase: &str,
    password: &str,
    wordlist: &WordList,
) -> (r: Result<String, AppError>)
    ensures
        !passphrase_valid(passphrase@, wordlist@) ==> (r matches Err(e)
            && e is ValidationError),
        passphrase_valid(passphrase@, wordlist@) ==> {
            &&& b64_decode_of(encrypted_content@) is None ==> (r matches Err(e)
                && e is DecryptionError)
            &&& b64_decode_of(encrypted_content@) matches Some(d) ==> {
                &&& d.len() < 28 ==> (r matches Err(e) && e is DecryptionError)
                &&& (d.len() >= 28 && legacy_open_of(passphrase@, password@, d) is None) ==> (
                r matches Err(e) && e is DecryptionError)
                &&& d.len() >= 28 ==> (legacy_open_of(passphrase@, password@, d) matches Some(
                    p,
                ) ==> {
                    &&& !vstd::utf8::valid_utf8(p) ==> (r matches Err(e)
                        && e is DecryptionError)
                    &&& vstd::utf8::valid_utf8(p) ==> (r matches Ok(t) && t@
                        == vstd::utf8::decode_utf8(p))
                })
            }
        },
{
    let validation = validate_passphrase(passphrase, wordlist);
    if !validation.is_valid {
        return Err(AppError::ValidationError("Invalid passphrase".to_owned()));
    }
    match decrypt_data(encrypted_content, passphrase, password) {
        Ok(t) => Ok(t),
        Err(e) => Err(AppError::DecryptionError(e.detail().clone())),
    }
}

/// Cleans raw seed-phrase input and refuses a result that does not
/// read as a BIP39 phrase of alphabetic words.
pub fn format_seed_phrase(raw_input: &str) -> (r: Result<String, AppError>)
    ensures
        ({
            let formatted = join_space(
                split_ws(raw_input@).map_values(|w: Seq<char>| lower_of(w)),
            );
            &&& format_valid(formatted) ==> (r matches Ok(s) && s@ == formatted)
            &&& !format_valid(formatted) ==> (r matches Err(e) && e is SeedPhraseError)
        }),
{
    let formatted = MnemonicFormatter::clean_input(raw_input);
    if !MnemonicFormatter::validate_format(formatted.as_str()) {
        return Err(
            AppError::SeedPhraseError("Failed to format seed phrase properly".to_owned()),
        );
    }
    Ok(formatted)
}

/// Formats raw seed-phrase input comprehensively and confirms the
/// result.
pub fn format_seed_phrase_comprehensive(raw_input: &str) -> (r: Result<
    SeedPhraseFormatResult,
    AppError,
>)
    ensures
        r matches Ok(res) ==> res.formatted_seed_phrase@
            == crate::mnemonic::comprehensive_format_of(raw_input@) && res.is_valid_format,
        r matches Err(e) ==> e is SeedPhraseError,
{
    let result = MnemonicFormatter::format_mnemonic_comprehensive(raw_input);
    match MnemonicFormatter::validate_and_confirm_format(&result) {
        Ok(()) => Ok(result),
        Err(_) => Err(AppError::SeedPhraseError("Formatting validation failed".to_owned())),
    }
}

/// Validates, encrypts and names a seed phrase in one step.  With
/// metadata the file name is derived from it (the phrase's word count
/// filled in); without it a timestamped default name is used.
pub fn encrypt_seed_phrase_with_wallet_metadata(
    seed_phrase: &str,
    passphrase: &str,
    password: Option<&str>,
    wallet_metadata: Option<WalletMetadata>,
    wordlist: &WordList,
) -> (r: Result<EncryptWithMetadataResult, AppError>)
    ensures
        !mnemonic_valid(seed_phrase@) ==> (r matches Err(e) && e is SeedPhraseError),
        mnemonic_valid(seed_phrase@) && !passphrase_valid(passphrase@, wordlist@) ==> (
        r matches Err(e) && e is ValidationError),
        r matches Ok(res) ==> legacy_encrypts(
            res.encrypted_content@,
            passphrase@,
            match password {
                Some(p) => p@,
                None => Seq::empty(),
            },
            seed_phrase@,
        ),
        r matches Ok(res) ==> (wallet_metadata matches Some(m) ==> {
            &&& res.suggested_filename@ == wallet_filename_of(
                WalletMetadata {
                    seed_phrase_word_count: Some(split_ws(seed_phrase@).len() as usize),
                    ..m
                },
            )
            &&& (res.wallet_info matches Some(info) && info.label@ == m.label@
                && info.created_at@ == m.created_at@ && info.seed_phrase_word_count == Some(
                split_ws(seed_phrase@).len() as usize,
            ))
        }),
        r matches Ok(res) ==> (wallet_metadata is None ==> res.wallet_info is None),
        (mnemonic_valid(seed_phrase@) && passphrase_valid(passphrase@, wordlist@)
            && vstd::utf8::encode_utf8(seed_phrase@).len() <= GCM_PLAINTEXT_MAX) ==> r is Ok,
{
    let validator = SeedPhraseValidator::new();
    let seed_validation = validator.validate_mnemonic(seed_phrase);
    if !seed_validation.is_valid {
        return Err(AppError::SeedPhraseError("Seed phrase validation failed".to_owned()));
    }
    let validation = validate_passphrase(passphrase, wordlist);
    if !validation.is_valid {
        return Err(AppError::ValidationError("Invalid passphrase".to_owned()));
    }
    let password: &str = match password {
        Some(p) => p,
        None => "",
    };
    proof {
        reveal_strlit("");
        assert(""@ =~= Seq::<char>::empty());
    }
    let encrypted_content = match encrypt_data(seed_phrase, passphrase, password) {
        Ok(s) => s,
        Err(e) => {
            return Err(AppError::EncryptionError(e.detail().clone()));
        },
    };
    match wallet_metadata {
        Some(metadata) => {
            let updated = WalletMetadata {
                label: metadata.label,
                wallet_type: metadata.wallet_type,
                created_at: metadata.created_at,
                seed_phrase_word_count: Some(seed_validation.word_count),
            };
            let filename = generate_wallet_filename(&updated);
            let wallet_info = WalletInfo {
                label: updated.label,
                wallet_type: updated.wallet_type,
                created_at: updated.created_at,
                file_path: None,
                seed_phrase_word_count: updated.seed_phrase_word_count,
            };
            Ok(
                EncryptWithMetadataResult {
                    encrypted_content,
                    suggested_filename: filename,
                    wallet_info: Some(wallet_info),
                },
            )
        },
        None => {
            let timestamp = now_compact_timestamp();
            let mut filename = "seed_phrase_".to_owned();
            filename.append(timestamp.as_str());
            filename.append(".bin");
            Ok(
                EncryptWithMetadataResult {
                    encrypted_content,
                    suggested_filename: filename,
                    wallet_info: None,
                },
            )
        },
    }
}

/// The advisory status for a plain connectivity check.
pub fn network_status_of(is_connected: bool) -> (r: NetworkStatus)
    ensures
        r.is_connected == is_connected,
        is_connected <==> r.warning_message is Some,
{
    let warning_message = if is_connected {
        Some(
            "Network connection detected. For maximum security, please disconnect from the internet before performing encryption/decryption operations.".to_owned(),
        )
    } else {
        None
    };
    NetworkStatus { is_connected, warning_message }
}

/// The advisory status for the enhanced check: a sharper warning while
/// seed-phrase content is on screen.
pub fn enhanced_network_status(is_connected: bool, has_seed_phrase_content: bool) -> (r:
    NetworkStatus)
    ensures
        r.is_connected == is_connected,
        is_connected <==> r.warning_message is Some,
{
    let warning_message = if is_connected {
        if has_seed_phrase_content {
            Some(
                "\u{26a0}\u{fe0f} Network connection detected! When handling seed phrases, it is strongly recommended to disconnect from the network to ensure maximum security. Seed phrase leakage may result in asset loss.".to_owned(),
            )
        } else {
            Some(
                "Network connection detected. For maximum security, please disconnect from the internet before performing encryption/decryption operations.".to_owned(),
            )
        }
    } else {
        None
    };
    NetworkStatus { is_connected, warning_message }
}

/// The preset wallet labels offered by the interface.
pub fn get_preset_wallet_labels() -> (r: Vec<String>)
    ensures
        r@.len() == 7,
{
    let mut labels: Vec<String> = Vec::new();
    labels.push("Main Wallet".to_owned());
    labels.push("Cold Wallet".to_owned());
    labels.push("Hot Wallet".to_owned());
    labels.push("Test Wallet".to_owned());
    labels.push("Hardware Wallet".to_owned());
    labels.push("Backup Wallet".to_owned());
    labels.push("Multi-sig Wallet".to_owned());
    labels
}

/// The human-readable integrity report for one metadata record.
pub open spec fn integrity_report_of(info: crate::integrity::IntegrityInfoView) -> Seq<char> {
    "File Integrity Information\n==========================\nSHA256 Hash: "@
        + info.sha256_hash + "\nFile Size: "@ + dec_of(info.file_size as nat) + " bytes\nCreated: "@
        + info.created_at + "\nEncryption: "@ + info.encryption_method + "\nKey Derivation: "@
        + info.key_derivation + "\n"@
}

/// Writes the integrity report for one metadata record.
pub fn export_integrity_hash(info: &FileIntegrityInfo) -> (r: String)
    ensures
        r@ == integrity_report_of(info@),
{
    let mut r = "File Integrity Information\n==========================\nSHA256 Hash: "
        .to_owned();
    r.append(info.sha256_hash.as_str());
    r.append("\nFile Size: ");
    let d = u64_to_dec(info.file_size);
    r.append(d.as_str());
    r.append(" bytes\nCreated: ");
    r.append(info.created_at.as_str());
    r.append("\nEncryption: ");
    r.append(info.encryption_method.as_str());
    r.append("\nKey Derivation: ");
    r.append(info.key_derivation.as_str());
    r.append("\n");
    r
}

} // verus!
