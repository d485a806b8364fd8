use seedvault::mnemonic::MnemonicError;
use seedvault::mnemonic::MnemonicFormatter;
use seedvault::mnemonic::SeedPhraseFormatResult;
use seedvault::mnemonic::SeedPhraseValidator;

#[test]
fn test_valid_12_word_seed_phrase() {
    let validator = SeedPhraseValidator::new();
    let seed_phrase = "abandon abandon abandon abandon abandon abandon abandon abandon abandon abandon abandon about";
    let result = validator.validate_mnemonic(seed_phrase);
    assert!(result.is_valid);
    assert_eq!(result.word_count, 12);
    assert!(result.checksum_valid);
    assert!(result.errors.is_empty());
    assert!(result.invalid_words.is_empty());
}

#[test]
fn test_valid_24_word_seed_phrase() {
    let validator = SeedPhraseValidator::new();
    let seed_phrase = "abandon abandon abandon abandon abandon abandon abandon abandon abandon abandon abandon abandon abandon abandon abandon abandon abandon abandon abandon abandon abandon abandon abandon art";
    let result = validator.validate_mnemonic(seed_phrase);
    assert!(result.is_valid);
    assert_eq!(result.word_count, 24);
    assert!(result.checksum_valid);
}

#[test]
fn test_invalid_word_count_too_few_seed_phrase() {
    let validator = SeedPhraseValidator::new();
    let seed_phrase = "abandon abandon abandon";
    let result = validator.validate_mnemonic(seed_phrase);
    assert!(!result.is_valid);
    assert_eq!(result.word_count, 3);
    assert!(!result.errors.is_empty());
    assert!(result.errors[0].contains("Invalid word count"));
}

#[test]
fn test_invalid_word_count_unsupported_seed_phrase() {
    let validator = SeedPhraseValidator::new();
    let seed_phrase = "abandon abandon abandon abandon abandon abandon abandon abandon abandon abandon abandon"; // 11 words
    let result = validator.validate_mnemonic(seed_phrase);
    assert!(!result.is_valid);
    assert_eq!(result.word_count, 11);
    assert!(!result.errors.is_empty());
}

#[test]
fn test_invalid_words_seed_phrase() {
    let validator = SeedPhraseValidator::new();
    let seed_phrase = "invalidword notaword xyz123 abandon abandon abandon abandon abandon abandon abandon abandon about";
    let result = validator.validate_mnemonic(seed_phrase);
    assert!(!result.is_valid);
    assert!(!result.invalid_words.is_empty());
    assert!(result.invalid_words.contains(&"invalidword".to_string()));
    assert!(result.invalid_words.contains(&"notaword".to_string()));
    assert!(result.invalid_words.contains(&"xyz123".to_string()));
}

#[test]
fn test_empty_seed_phrase() {
    let validator = SeedPhraseValidator::new();
    let result = validator.validate_mnemonic("");
    assert!(!result.is_valid);
    assert_eq!(result.word_count, 0);
    assert!(result.errors.contains(&"Empty seed phrase provided".to_string()));
}

#[test]
fn test_whitespace_only_seed_phrase() {
    let validator = SeedPhraseValidator::new();
    let result = validator.validate_mnemonic("   \n\t  ");
    assert!(!result.is_valid);
    assert_eq!(result.word_count, 0);
    assert!(result.errors.contains(&"Empty seed phrase provided".to_string()));
}

#[test]
fn test_invalid_checksum_seed_phrase() {
    let validator = SeedPhraseValidator::new();
    // Valid words, invalid checksum.
    let seed_phrase = "abandon abandon abandon abandon abandon abandon abandon abandon abandon abandon abandon abandon";
    let result = validator.validate_mnemonic(seed_phrase);
    assert!(!result.is_valid);
    assert_eq!(result.word_count, 12);
    assert!(result.invalid_words.is_empty());
    assert!(!result.checksum_valid);
    assert!(!result.errors.is_empty());
}

#[test]
fn test_case_insensitive_validation_seed_phrase() {
    let validator = SeedPhraseValidator::new();
    let seed_phrase = "ABANDON ABANDON ABANDON ABANDON ABANDON ABANDON ABANDON ABANDON ABANDON ABANDON ABANDON ABOUT";
    let result = validator.validate_mnemonic(seed_phrase);
    // BIP39 is case-sensitive, so this must fail.
    assert!(!result.is_valid);
}

#[test]
fn test_word_count_validation_seed_phrase() {
    let validator = SeedPhraseValidator::new();
    assert!(validator.validate_word_count(12));
    assert!(validator.validate_word_count(15));
    assert!(validator.validate_word_count(18));
    assert!(validator.validate_word_count(21));
    assert!(validator.validate_word_count(24));
    assert!(!validator.validate_word_count(11));
    assert!(!validator.validate_word_count(13));
    assert!(!validator.validate_word_count(25));
}

#[test]
fn test_checksum_validation_seed_phrase() {
    let validator = SeedPhraseValidator::new();
    let valid_seed_phrase = "abandon abandon abandon abandon abandon abandon abandon abandon abandon abandon abandon about";
    let invalid_seed_phrase = "abandon abandon abandon abandon abandon abandon abandon abandon abandon abandon abandon abandon";

    assert!(validator.check_checksum(valid_seed_phrase));
    assert!(!validator.check_checksum(invalid_seed_phrase));
}

#[test]
fn test_seed_phrase_formatting() {
    let raw = "  abandon   abandon  abandon abandon abandon abandon abandon abandon abandon abandon abandon about  ";
    let formatted = MnemonicFormatter::clean_input(raw);
    assert_eq!(formatted, "abandon abandon abandon abandon abandon abandon abandon abandon abandon abandon abandon about");
}

#[test]
fn test_formatting_with_newlines_seed_phrase() {
    let raw = "abandon\nabandon\tabandon abandon\r\nabandon abandon abandon abandon abandon abandon abandon about";
    let formatted = MnemonicFormatter::clean_input(raw);
    assert_eq!(formatted, "abandon abandon abandon abandon abandon abandon abandon abandon abandon abandon abandon about");
}

#[test]
fn test_formatting_mixed_case() {
    let raw = "Abandon ABANDON abandon Abandon abandon abandon abandon abandon abandon abandon abandon about";
    let formatted = MnemonicFormatter::clean_input(raw);
    assert_eq!(formatted, "abandon abandon abandon abandon abandon abandon abandon abandon abandon abandon abandon about");
}

#[test]
fn test_normalize_spacing() {
    let input = "abandon  abandon   abandon abandon abandon abandon abandon abandon abandon abandon abandon about";
    let normalized = MnemonicFormatter::normalize_spacing(input);
    assert_eq!(normalized, "abandon abandon abandon abandon abandon abandon abandon abandon abandon abandon abandon about");
}

#[test]
fn test_validate_format() {
    assert!(MnemonicFormatter::validate_format("abandon abandon abandon abandon abandon abandon abandon abandon abandon abandon abandon about"));
    assert!(!MnemonicFormatter::validate_format("abandon abandon abandon")); // Too few words
    assert!(!MnemonicFormatter::validate_format("")); // Empty
    assert!(MnemonicFormatter::validate_format("abandon abandon abandon abandon abandon abandon abandon abandon abandon abandon abandon about"));
}

#[test]
fn test_comprehensive_validation_flow() {
    let validator = SeedPhraseValidator::new();

    let messy_input = "  abandon   abandon  abandon abandon abandon abandon abandon abandon abandon abandon abandon about  ";
    let formatted = MnemonicFormatter::clean_input(messy_input);
    let result = validator.validate_mnemonic(&formatted);

    assert!(result.is_valid);
    assert_eq!(result.word_count, 12);
    assert!(result.checksum_valid);
    assert!(result.errors.is_empty());
}

#[test]
fn test_comprehensive_formatting_clean_input() {
    let messy_input = "  abandon   abandon\nabandon\tabandon abandon abandon abandon abandon abandon abandon abandon about  ";
    let result = MnemonicFormatter::format_mnemonic_comprehensive(messy_input);

    assert_eq!(result.formatted_seed_phrase, "abandon abandon abandon abandon abandon abandon abandon abandon abandon abandon abandon about");
    assert_eq!(result.original_word_count, 12);
    assert_eq!(result.formatted_word_count, 12);
    assert!(result.is_valid_format);
    assert!(result.changes_made.contains(&"Removed extra whitespace and normalized spacing".to_string()));
}

#[test]
fn test_comprehensive_formatting_case_normalization() {
    let mixed_case_input = "Abandon ABANDON abandon Abandon abandon abandon abandon abandon abandon abandon abandon about";
    let result = MnemonicFormatter::format_mnemonic_comprehensive(mixed_case_input);

    assert_eq!(result.formatted_seed_phrase, "abandon abandon abandon abandon abandon abandon abandon abandon abandon abandon abandon about");
    assert_eq!(result.original_word_count, 12);
    assert_eq!(result.formatted_word_count, 12);
    assert!(result.is_valid_format);
    assert!(result.changes_made.contains(&"Converted to lowercase".to_string()));
}

#[test]
fn test_comprehensive_formatting_sanitization() {
    let dirty_input = "abandon123 abandon! abandon@ abandon abandon abandon abandon abandon abandon abandon abandon about";
    let result = MnemonicFormatter::format_mnemonic_comprehensive(dirty_input);

    assert_eq!(result.formatted_seed_phrase, "abandon abandon abandon abandon abandon abandon abandon abandon abandon abandon abandon about");
    assert_eq!(result.original_word_count, 12);
    assert_eq!(result.formatted_word_count, 12);
    assert!(result.is_valid_format);
    assert!(result.changes_made.contains(&"Removed non-alphabetic characters".to_string()));
}

#[test]
fn test_comprehensive_formatting_word_count_change() {
    let short_input = "abandon abandon abandon";
    let result = MnemonicFormatter::format_mnemonic_comprehensive(short_input);

    assert_eq!(result.formatted_seed_phrase, "abandon abandon abandon");
    assert_eq!(result.original_word_count, 3);
    assert_eq!(result.formatted_word_count, 3);
    assert!(!result.is_valid_format); // 3 words is not a BIP39 count
    assert!(result.changes_made.is_empty() || result.changes_made.len() == 0);
}

#[test]
fn test_comprehensive_formatting_empty_input() {
    let empty_input = "   \n\t  ";
    let result = MnemonicFormatter::format_mnemonic_comprehensive(empty_input);

    assert_eq!(result.formatted_seed_phrase, "");
    assert_eq!(result.original_word_count, 0);
    assert_eq!(result.formatted_word_count, 0);
    assert!(!result.is_valid_format);
}

#[test]
fn test_comprehensive_formatting_24_word_mnemonic() {
    let input_24 = "abandon abandon abandon abandon abandon abandon abandon abandon abandon abandon abandon abandon abandon abandon abandon abandon abandon abandon abandon abandon abandon abandon abandon art";
    let result = MnemonicFormatter::format_mnemonic_comprehensive(input_24);

    assert_eq!(result.original_word_count, 24);
    assert_eq!(result.formatted_word_count, 24);
    assert!(result.is_valid_format);
}

#[test]
fn test_normalize_case() {
    let mixed_case = "Abandon ABANDON abandon";
    let normalized = MnemonicFormatter::normalize_case(mixed_case);
    assert_eq!(normalized, "abandon abandon abandon");
}

#[test]
fn test_sanitize_input() {
    let dirty = "abandon123 abandon! abandon@ abandon";
    let sanitized = MnemonicFormatter::sanitize_input(dirty);
    assert_eq!(sanitized, "abandon abandon abandon abandon");
}

#[test]
fn test_sanitize_input_with_numbers_and_symbols() {
    let dirty = "word1 word2! word3@ word4# word5$ word6%";
    let sanitized = MnemonicFormatter::sanitize_input(dirty);
    assert_eq!(sanitized, "word word word word word word");
}

#[test]
fn test_ensure_standard_format() {
    let input = "abandon abandon abandon abandon abandon abandon abandon abandon abandon abandon abandon about";
    let formatted = MnemonicFormatter::ensure_standard_format(input);
    assert_eq!(formatted, input);
}

#[test]
fn test_validate_format_valid_counts() {
    assert!(MnemonicFormatter::validate_format("word ".repeat(12).trim()));
    assert!(MnemonicFormatter::validate_format("word ".repeat(15).trim()));
    assert!(MnemonicFormatter::validate_format("word ".repeat(18).trim()));
    assert!(MnemonicFormatter::validate_format("word ".repeat(21).trim()));
    assert!(MnemonicFormatter::validate_format("word ".repeat(24).trim()));
}

#[test]
fn test_validate_format_invalid_counts() {
    assert!(!MnemonicFormatter::validate_format("word ".repeat(11).trim()));
    assert!(!MnemonicFormatter::validate_format("word ".repeat(13).trim()));
    assert!(!MnemonicFormatter::validate_format("word ".repeat(25).trim()));
}

#[test]
fn test_validate_format_invalid_characters() {
    assert!(!MnemonicFormatter::validate_format("word1 word2 word3 word4 word5 word6 word7 word8 word9 word10 word11 word12"));
    assert!(!MnemonicFormatter::validate_format("word! word@ word# word$ word% word^ word& word* word( word) word- word="));
}

#[test]
fn test_validate_and_confirm_format_success() {
    let valid_result = SeedPhraseFormatResult {
        formatted_seed_phrase: "abandon abandon abandon abandon abandon abandon abandon abandon abandon abandon abandon about".to_string(),
        original_word_count: 12,
        formatted_word_count: 12,
        changes_made: vec![],
        is_valid_format: true,
    };

    assert!(MnemonicFormatter::validate_and_confirm_format(&valid_result).is_ok());
}

#[test]
fn test_validate_and_confirm_format_invalid_count() {
    let invalid_result = SeedPhraseFormatResult {
        formatted_seed_phrase: "abandon abandon abandon".to_string(),
        original_word_count: 3,
        formatted_word_count: 3,
        changes_made: vec![],
        is_valid_format: false,
    };

    let result = MnemonicFormatter::validate_and_confirm_format(&invalid_result);
    assert!(result.is_err());
    assert!(matches!(result.unwrap_err(), MnemonicError::InvalidWordCount(3)));
}

#[test]
fn test_validate_and_confirm_format_empty() {
    let empty_result = SeedPhraseFormatResult {
        formatted_seed_phrase: "".to_string(),
        original_word_count: 0,
        formatted_word_count: 0,
        changes_made: vec![],
        is_valid_format: false,
    };

    let result = MnemonicFormatter::validate_and_confirm_format(&empty_result);
    assert!(result.is_err());
    // The format flag is checked first, so the count error wins.
    assert!(matches!(result.unwrap_err(), MnemonicError::InvalidWordCount(0)));
}

#[test]
fn test_comprehensive_formatting_complex_scenario() {
    let complex_input = "  Abandon123   ABANDON!  \n abandon@  abandon abandon abandon abandon abandon abandon abandon abandon about  ";
    let result = MnemonicFormatter::format_mnemonic_comprehensive(complex_input);

    assert_eq!(result.formatted_seed_phrase, "abandon abandon abandon abandon abandon abandon abandon abandon abandon abandon abandon about");
    assert_eq!(result.original_word_count, 12);
    assert_eq!(result.formatted_word_count, 12);
    assert!(result.is_valid_format);

    assert!(result.changes_made.len() >= 2);
    assert!(result.changes_made.contains(&"Removed extra whitespace and normalized spacing".to_string()));
    assert!(result.changes_made.contains(&"Converted to lowercase".to_string()));
    assert!(result.changes_made.contains(&"Removed non-alphabetic characters".to_string()));
}
