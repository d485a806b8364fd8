use seedvault::diceware::generate_diceware_passphrase;
use seedvault::diceware::parse_wordlist_content;
use seedvault::diceware::validate_passphrase;
use seedvault::diceware::WordList;

fn create_test_wordlist() -> WordList {
    let mut wordlist = WordList::new();
    wordlist.insert("correct".to_string());
    wordlist.insert("horse".to_string());
    wordlist.insert("battery".to_string());
    wordlist.insert("staple".to_string());
    wordlist.insert("test".to_string());
    wordlist.insert("word".to_string());
    wordlist
}

#[test]
fn test_validate_valid_passphrase() {
    let wordlist = create_test_wordlist();
    let result = validate_passphrase("correct horse battery", &wordlist);

    assert!(result.is_valid);
    assert_eq!(result.valid_words.len(), 3);
    assert_eq!(result.invalid_words.len(), 0);
}

#[test]
fn test_validate_invalid_word() {
    let wordlist = create_test_wordlist();
    let result = validate_passphrase("correct horse invalid", &wordlist);

    assert!(!result.is_valid);
    assert_eq!(result.valid_words.len(), 2);
    assert_eq!(result.invalid_words.len(), 1);
    assert!(result.errors.iter().any(|e| e.contains("invalid")));
}

#[test]
fn test_validate_too_few_words() {
    let wordlist = create_test_wordlist();
    let result = validate_passphrase("correct horse", &wordlist);

    assert!(!result.is_valid);
    assert!(result.errors.iter().any(|e| e.contains("at least 3 words")));
}

#[test]
fn test_generate_passphrase() {
    let wordlist = create_test_wordlist();
    let result = generate_diceware_passphrase(4, &wordlist);

    assert!(result.is_ok());
    let passphrase = result.unwrap();
    let words: Vec<&str> = passphrase.split_whitespace().collect();
    assert_eq!(words.len(), 4);

    for word in words {
        assert!(wordlist.contains(word));
    }
}

#[test]
fn test_generate_passphrase_rejects_empty_inputs() {
    let wordlist = create_test_wordlist();
    assert!(generate_diceware_passphrase(0, &wordlist).is_err());
    let empty = WordList::new();
    assert!(generate_diceware_passphrase(4, &empty).is_err());
}

#[test]
fn test_validate_duplicate_words() {
    let wordlist = create_test_wordlist();
    let result = validate_passphrase("correct horse horse", &wordlist);
    assert!(!result.is_valid);
    assert!(result.errors.iter().any(|e| e.contains("duplicate")));
}

#[test]
fn test_validate_uppercase_words_accepted() {
    // Words are lowercased before the list lookup.
    let wordlist = create_test_wordlist();
    let result = validate_passphrase("Correct HORSE battery", &wordlist);
    assert!(result.is_valid);
}

#[test]
fn test_parse_wordlist_content() {
    let content = "11111 abacus\n11112 Abdomen\n\n# comment line\n   \nmalformed\n11113 abide\r\n";
    let wordlist = parse_wordlist_content(content);
    assert!(wordlist.contains("abacus"));
    assert!(wordlist.contains("abdomen"));
    assert!(wordlist.contains("abide"));
    assert!(!wordlist.contains("malformed"));
    assert!(!wordlist.contains("comment"));
    assert!(!wordlist.contains("11111"));
}
