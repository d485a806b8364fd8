//! BIP39 seed-phrase validation and formatting: word counts, word-list
//! membership, the checksum, and cleanup of raw user input.

use vstd::prelude::*;
use core::str::FromStr;

use crate::numbers::u64_to_dec;
use crate::strutil::alpha_char;
use crate::strutil::char_is_alphabetic;
use crate::strutil::char_is_whitespace;
use crate::strutil::join_space;
use crate::strutil::join_with_space;
use crate::strutil::lemma_no_words_iff_trim_empty;
use crate::strutil::lower_of;
use crate::strutil::split_whitespace_chars;
use crate::strutil::split_whitespace_words;
use crate::strutil::split_ws;
use crate::strutil::str_chars;
use crate::strutil::str_to_lowercase;
use crate::strutil::str_trim;
use crate::strutil::trim_of;
use crate::strutil::ws_char;

verus! {

/// A failure of seed-phrase validation or formatting.
#[derive(Debug)]
pub enum MnemonicError {
    /// The word count is not one of 12, 15, 18, 21 or 24.
    InvalidWordCount(usize),
    /// Words outside the BIP39 list.
    InvalidWords(Vec<String>),
    /// The checksum did not verify.
    InvalidChecksum,
    /// An empty phrase.
    EmptyMnemonic,
    /// An error reported by the BIP39 backend.
    Bip39Error(String),
}

/// The outcome of a seed-phrase validation.
pub struct MnemonicValidationResult {
    pub is_valid: bool,
    pub word_count: usize,
    pub invalid_words: Vec<String>,
    pub errors: Vec<String>,
    pub checksum_valid: bool,
}

/// Whether a word stands in the English BIP39 word list.
pub uninterp spec fn bip39_word(w: Seq<char>) -> bool;

/// Relies on bip39's `Language::English.word_list()` array and slice
/// `contains`: exact membership in the fixed 2048-word English list.
#[verifier::external_body]
fn is_bip39_word(word: &str) -> (r: bool)
    ensures
        r == bip39_word(word@),
{
    bip39::Language::English.word_list().contains(&word)
}

/// Whether a text parses as a BIP39 mnemonic, checksum included.
pub uninterp spec fn bip39_valid_mnemonic(s: Seq<char>) -> bool;

/// Relies on bip39's `Mnemonic::from_str`: it succeeds exactly on a
/// normalized phrase of listed words with a valid checksum, a function
/// of the text alone.
#[verifier::external_body]
fn bip39_parses(s: &str) -> (r: bool)
    ensures
        r == bip39_valid_mnemonic(s@),
{
    bip39::Mnemonic::from_str(s).is_ok()
}

/// Whether a single word stands in the BIP39 list.
pub fn is_valid_bip39_word(word: &str) -> (r: bool)
    ensures
        r == bip39_word(word@),
{
    is_bip39_word(word)
}

/// Relies on bip39's `Language::English.word_list()`: the fixed
/// 2048-word English list, every entry of which is a listed word.
#[verifier::external_body]
fn bip39_word_list_vec() -> (r: Vec<String>)
    ensures
        r@.len() == 2048,
        forall|i: int| 0 <= i < r@.len() ==> bip39_word(#[trigger] r@[i]@),
{
    bip39::Language::English.word_list().iter().map(|w| w.to_string()).collect()
}

/// Completions for a word being typed: up to `limit` listed words that
/// start with the prefix, in the list's own order.
pub fn get_bip39_suggestions(prefix: &str, limit: usize) -> (r: Vec<String>)
    ensures
        r@.len() <= limit,
        forall|i: int|
            0 <= i < r@.len() ==> bip39_word(#[trigger] r@[i]@) && crate::strutil::has_prefix(
                r@[i]@,
                prefix@,
            ),
{
    let words = bip39_word_list_vec();
    let pv = str_chars(prefix);
    let mut r: Vec<String> = Vec::new();
    let n = words.len();
    let mut i: usize = 0;
    while i < n
        invariant
            i <= n,
            n == words@.len(),
            pv@ == prefix@,
            r@.len() <= limit,
            forall|k: int| 0 <= k < words@.len() ==> bip39_word(#[trigger] words@[k]@),
            forall|k: int|
                0 <= k < r@.len() ==> bip39_word(#[trigger] r@[k]@) && crate::strutil::has_prefix(
                    r@[k]@,
                    prefix@,
                ),
        decreases n - i,
    {
        if r.len() >= limit {
            return r;
        }
        let wchars = str_chars(words[i].as_str());
        proof {
            assert(wchars@.subrange(0, wchars@.len() as int) =~= wchars@);
        }
        if crate::strutil::chars_have_prefix(&wchars, 0, wchars.len(), &pv) {
            r.push(words[i].clone());
        }
        i = i + 1;
    }
    r
}

/// A BIP39 word count: 12, 15, 18, 21 or 24.
pub open spec fn bip39_word_count(n: int) -> bool {
    n == 12 || n == 15 || n == 18 || n == 21 || n == 24
}

/// A phrase that validation accepts: a BIP39 word count, every word in
/// the list, and a parse with a valid checksum.
pub open spec fn mnemonic_valid(s: Seq<char>) -> bool {
    let ws = split_ws(s);
    &&& bip39_word_count(ws.len() as int)
    &&& (forall|i: int| 0 <= i < ws.len() ==> bip39_word(#[trigger] ws[i]))
    &&& bip39_valid_mnemonic(s)
}

/// The validator for BIP39 seed phrases in English.
pub struct SeedPhraseValidator {
}

impl SeedPhraseValidator {
    /// A validator over the English word list.
    pub fn new() -> SeedPhraseValidator {
        SeedPhraseValidator {  }
    }

    /// Validates a seed phrase: an empty phrase, a wrong word count,
    /// unlisted words and a failed checksum are each rejected, in that
    /// order, with the stage's own report.
    pub fn validate_mnemonic(&self, mnemonic_str: &str) -> (r: MnemonicValidationResult)
        ensures
            r.is_valid == mnemonic_valid(mnemonic_str@),
            r.checksum_valid == r.is_valid,
            r.word_count == split_ws(mnemonic_str@).len(),
            r.is_valid <==> r.errors@.len() == 0,
            bip39_word_count(split_ws(mnemonic_str@).len() as int)
                ==> r.invalid_words@.map_values(|w: String| w@) == split_ws(
                mnemonic_str@,
            ).filter(|w: Seq<char>| !bip39_word(w)),
    {
        broadcast use vstd::seq_lib::group_filter_ensures;
        broadcast use Seq::lemma_filter_push;

        let ghost ws = split_ws(mnemonic_str@);
        let trimmed = str_trim(mnemonic_str);
        let words = split_whitespace_words(mnemonic_str);
        let word_count = words.len();
        proof {
            lemma_no_words_iff_trim_empty(mnemonic_str@);
        }
        if trimmed.as_str().is_empty() {
            let mut errors: Vec<String> = Vec::new();
            errors.push("Empty seed phrase provided".to_owned());
            return MnemonicValidationResult {
                is_valid: false,
                word_count,
                invalid_words: Vec::new(),
                errors,
                checksum_valid: false,
            };
        }
        if !(word_count == 12 || word_count == 15 || word_count == 18 || word_count == 21
            || word_count == 24) {
            let mut errors: Vec<String> = Vec::new();
            let mut msg = "Invalid word count: expected 12, 15, 18, 21, or 24 words, got"
                .to_owned();
            msg.append(" ");
            let d = u64_to_dec(word_count as u64);
            msg.append(d.as_str());
            errors.push(msg);
            return MnemonicValidationResult {
                is_valid: false,
                word_count,
                invalid_words: Vec::new(),
                errors,
                checksum_valid: false,
            };
        }
        let mut invalid_words: Vec<String> = Vec::new();
        let n = words.len();
        let mut i: usize = 0;
        while i < n
            invariant
                i <= n,
                n == words@.len(),
                ws == words@.map_values(|w: String| w@),
                invalid_words@.map_values(|w: String| w@) == ws.take(i as int).filter(
                    |w: Seq<char>| !bip39_word(w),
                ),
                invalid_words@.len() > 0 ==> (exists|k: int|
                    0 <= k < i && !bip39_word(#[trigger] ws[k])),
            decreases n - i,
        {
            let ghost pre = ws.take(i as int);
            proof {
                assert(ws.take(i as int + 1) =~= pre.push(ws[i as int]));
                pre.lemma_filter_push(ws[i as int], |w: Seq<char>| !bip39_word(w));
            }
            if !is_bip39_word(words[i].as_str()) {
                invalid_words.push(words[i].clone());
                proof {
                    assert(invalid_words@.map_values(|w: String| w@) =~= pre.filter(
                        |w: Seq<char>| !bip39_word(w),
                    ).push(ws[i as int]));
                    assert(!bip39_word(ws[i as int]));
                }
            }
            i = i + 1;
        }
        proof {
            assert(ws.take(n as int) =~= ws);
        }
        if invalid_words.len() > 0 {
            let mut errors: Vec<String> = Vec::new();
            let mut msg = "Invalid words found:".to_owned();
            let mut j: usize = 0;
            while j < invalid_words.len()
                invariant
                    j <= invalid_words@.len(),
                decreases invalid_words@.len() - j,
            {
                msg.append(" ");
                msg.append(invalid_words[j].as_str());
                j = j + 1;
            }
            errors.push(msg);
            proof {
                let k = choose|k: int| 0 <= k < n && !bip39_word(#[trigger] ws[k]);
                assert(!mnemonic_valid(mnemonic_str@));
            }
            return MnemonicValidationResult {
                is_valid: false,
                word_count,
                invalid_words,
                errors,
                checksum_valid: false,
            };
        }
        proof {
            assert forall|k: int| 0 <= k < ws.len() implies bip39_word(#[trigger] ws[k]) by {
                if !bip39_word(ws[k]) {
                    assert(ws.filter(|w: Seq<char>| !bip39_word(w)).contains(ws[k]));
                }
            }
        }
        if bip39_parses(mnemonic_str) {
            MnemonicValidationResult {
                is_valid: true,
                word_count,
                invalid_words: Vec::new(),
                errors: Vec::new(),
                checksum_valid: true,
            }
        } else {
            let mut errors: Vec<String> = Vec::new();
            errors.push("BIP39 validation failed: checksum mismatch".to_owned());
            MnemonicValidationResult {
                is_valid: false,
                word_count,
                invalid_words: Vec::new(),
                errors,
                checksum_valid: false,
            }
        }
    }

    /// Whether a word count is one BIP39 supports.
    pub fn validate_word_count(&self, word_count: usize) -> (r: bool)
        ensures
            r == bip39_word_count(word_count as int),
    {
        word_count == 12 || word_count == 15 || word_count == 18 || word_count == 21
            || word_count == 24
    }

    /// Whether the phrase parses with a valid checksum.
    pub fn check_checksum(&self, mnemonic_str: &str) -> (r: bool)
        ensures
            r == bip39_valid_mnemonic(mnemonic_str@),
    {
        bip39_parses(mnemonic_str)
    }
}

/// The outcome of a comprehensive formatting pass.
pub struct SeedPhraseFormatResult {
    pub formatted_seed_phrase: String,
    pub original_word_count: usize,
    pub formatted_word_count: usize,
    pub changes_made: Vec<String>,
    pub is_valid_format: bool,
}

/// The characters kept by sanitizing: alphabetic or whitespace.
pub open spec fn sanitized_of(s: Seq<char>) -> Seq<char> {
    s.filter(|c: char| alpha_char(c) || ws_char(c))
}

/// A formatted phrase the formatter accepts: a BIP39 word count and
/// alphabetic words only.
pub open spec fn format_valid(s: Seq<char>) -> bool {
    let ws = split_ws(s);
    &&& bip39_word_count(ws.len() as int)
    &&& (forall|i: int, j: int|
        0 <= i < ws.len() && 0 <= j < ws[i].len() ==> alpha_char(#[trigger] ws[i][j]))
}

/// What the comprehensive formatter produces: spacing normalized, case
/// lowered, non-alphabetic characters dropped, spacing normalized
/// again.
pub open spec fn comprehensive_format_of(raw: Seq<char>) -> Seq<char> {
    let spaced = join_space(split_ws(raw));
    let lowered = lower_of(spaced);
    let sanitized = join_space(split_ws(sanitized_of(lowered)));
    join_space(split_ws(sanitized))
}

/// Cleans and formats raw seed-phrase input.
pub struct MnemonicFormatter {
}

impl MnemonicFormatter {
    /// Formats raw input step by step and reports each change that was
    /// needed: whitespace normalization, lowercasing, removal of
    /// non-alphabetic characters, and a changed word count.
    pub fn format_mnemonic_comprehensive(raw_input: &str) -> (r: SeedPhraseFormatResult)
        ensures
            r.formatted_seed_phrase@ == comprehensive_format_of(raw_input@),
            r.original_word_count == split_ws(raw_input@).len(),
            r.formatted_word_count == split_ws(comprehensive_format_of(raw_input@)).len(),
            r.is_valid_format == format_valid(comprehensive_format_of(raw_input@)),
    {
        let mut changes_made: Vec<String> = Vec::new();
        let original_words = split_whitespace_words(raw_input);
        let original_word_count = original_words.len();
        let whitespace_cleaned = join_with_space(&original_words);
        let trimmed = str_trim(raw_input);
        if !crate::strutil::str_eq(whitespace_cleaned.as_str(), trimmed.as_str()) {
            changes_made.push("Removed extra whitespace and normalized spacing".to_owned());
        }
        let case_normalized = str_to_lowercase(whitespace_cleaned.as_str());
        if !crate::strutil::str_eq(case_normalized.as_str(), whitespace_cleaned.as_str()) {
            changes_made.push("Converted to lowercase".to_owned());
        }
        let sanitized = Self::sanitize_input(case_normalized.as_str());
        if !crate::strutil::str_eq(sanitized.as_str(), case_normalized.as_str()) {
            changes_made.push("Removed non-alphabetic characters".to_owned());
        }
        let final_formatted = Self::ensure_standard_format(sanitized.as_str());
        let formatted_words = split_whitespace_words(final_formatted.as_str());
        let formatted_word_count = formatted_words.len();
        if formatted_word_count != original_word_count {
            changes_made.push("Adjusted word count".to_owned());
        }
        let is_valid_format = Self::validate_format(final_formatted.as_str());
        SeedPhraseFormatResult {
            formatted_seed_phrase: final_formatted,
            original_word_count,
            formatted_word_count,
            changes_made,
            is_valid_format,
        }
    }

    /// Normalizes spacing and lowercases every word.
    pub fn clean_input(raw_input: &str) -> (r: String)
        ensures
            r@ == join_space(split_ws(raw_input@).map_values(|w: Seq<char>| lower_of(w))),
    {
        let words = split_whitespace_words(raw_input);
        let mut lowered: Vec<String> = Vec::new();
        let n = words.len();
        let mut i: usize = 0;
        while i < n
            invariant
                i <= n,
                n == words@.len(),
                lowered@.map_values(|w: String| w@) == words@.map_values(|w: String| w@).take(
                    i as int,
                ).map_values(|w: Seq<char>| lower_of(w)),
            decreases n - i,
        {
            let lw = str_to_lowercase(words[i].as_str());
            let ghost prevl = lowered@;
            lowered.push(lw);
            proof {
                let ws = words@.map_values(|w: String| w@);
                assert(lw@ == lower_of(ws[i as int]));
                assert(lowered@.map_values(|w: String| w@) =~= prevl.map_values(
                    |w: String| w@,
                ).push(lw@));
                assert(ws.take(i as int + 1).map_values(|w: Seq<char>| lower_of(w)) =~= ws.take(
                    i as int,
                ).map_values(|w: Seq<char>| lower_of(w)).push(lower_of(ws[i as int])));
                assert(lowered@.map_values(|w: String| w@) =~= ws.take(i as int + 1).map_values(
                    |w: Seq<char>| lower_of(w),
                ));
            }
            i = i + 1;
        }
        proof {
            let ws = words@.map_values(|w: String| w@);
            assert(ws.take(n as int) =~= ws);
        }
        join_with_space(&lowered)
    }

    /// Lowercases the input.
    pub fn normalize_case(input: &str) -> (r: String)
        ensures
            r@ == lower_of(input@),
    {
        str_to_lowercase(input)
    }

    /// Drops every character that is neither alphabetic nor whitespace,
    /// then normalizes spacing.
    pub fn sanitize_input(input: &str) -> (r: String)
        ensures
            r@ == join_space(split_ws(sanitized_of(input@))),
    {
        broadcast use Seq::lemma_filter_push;

        let chars = str_chars(input);
        let mut kept: Vec<char> = Vec::new();
        let n = chars.len();
        let mut i: usize = 0;
        while i < n
            invariant
                i <= n,
                n == chars@.len(),
                chars@ == input@,
                kept@ == chars@.take(i as int).filter(
                    |c: char| alpha_char(c) || ws_char(c),
                ),
            decreases n - i,
        {
            let ghost pre = chars@.take(i as int);
            proof {
                assert(chars@.take(i as int + 1) =~= pre.push(chars@[i as int]));
                pre.lemma_filter_push(chars@[i as int], |c: char| alpha_char(c) || ws_char(c));
            }
            let c = chars[i];
            let keep_alpha = char_is_alphabetic(c);
            let keep_ws = char_is_whitespace(c);
            if keep_alpha || keep_ws {
                kept.push(c);
            }
            i = i + 1;
        }
        proof {
            assert(chars@.take(n as int) =~= input@);
        }
        let words = split_whitespace_chars(&kept);
        join_with_space(&words)
    }

    /// Joins the words back with single spaces.
    pub fn ensure_standard_format(input: &str) -> (r: String)
        ensures
            r@ == join_space(split_ws(input@)),
    {
        let words = split_whitespace_words(input);
        join_with_space(&words)
    }

    /// Normalizes spacing.
    pub fn normalize_spacing(input: &str) -> (r: String)
        ensures
            r@ == join_space(split_ws(input@)),
    {
        let words = split_whitespace_words(input);
        join_with_space(&words)
    }

    /// Whether a formatted phrase has a BIP39 word count and alphabetic
    /// words only.
    pub fn validate_format(formatted: &str) -> (r: bool)
        ensures
            r == format_valid(formatted@),
    {
        let words = split_whitespace_words(formatted);
        let ghost ws = split_ws(formatted@);
        let word_count = words.len();
        if !(word_count == 12 || word_count == 15 || word_count == 18 || word_count == 21
            || word_count == 24) {
            return false;
        }
        let n = words.len();
        let mut i: usize = 0;
        while i < n
            invariant
                i <= n,
                n == words@.len(),
                ws == split_ws(formatted@),
                ws == words@.map_values(|w: String| w@),
                forall|k: int, j: int|
                    0 <= k < i && 0 <= j < ws[k].len() ==> alpha_char(#[trigger] ws[k][j]),
            decreases n - i,
        {
            let wchars = str_chars(words[i].as_str());
            let m = wchars.len();
            let mut j: usize = 0;
            while j < m
                invariant
                    j <= m,
                    m == wchars@.len(),
                    wchars@ == ws[i as int],
                    i < n,
                    n == words@.len(),
                    ws == split_ws(formatted@),
                    ws == words@.map_values(|w: String| w@),
                    forall|l: int| 0 <= l < j ==> alpha_char(#[trigger] wchars@[l]),
                decreases m - j,
            {
                if !char_is_alphabetic(wchars[j]) {
                    proof {
                        assert(0 <= i < split_ws(formatted@).len());
                        assert(0 <= j < split_ws(formatted@)[i as int].len());
                        assert(!alpha_char(split_ws(formatted@)[i as int][j as int]));
                        assert(!format_valid(formatted@));
                    }
                    return false;
                }
                j = j + 1;
            }
            i = i + 1;
        }
        true
    }

    /// Confirms a formatting result: the format flag, then emptiness,
    /// then the word count, each with its own error.
    pub fn validate_and_confirm_format(result: &SeedPhraseFormatResult) -> (r: Result<
        (),
        MnemonicError,
    >)
        ensures
            !result.is_valid_format ==> (r matches Err(e) && e matches
                MnemonicError::InvalidWordCount(c) && c == result.formatted_word_count),
            result.is_valid_format && trim_of(result.formatted_seed_phrase@).len() == 0 ==> (
            r matches Err(e) && e is EmptyMnemonic),
            (result.is_valid_format && trim_of(result.formatted_seed_phrase@).len() > 0
                && !bip39_word_count(result.formatted_word_count as int)) ==> (r matches Err(e)
                && e matches MnemonicError::InvalidWordCount(c) && c
                == result.formatted_word_count),
            (result.is_valid_format && trim_of(result.formatted_seed_phrase@).len() > 0
                && bip39_word_count(result.formatted_word_count as int)) ==> r is Ok,
    {
        if !result.is_valid_format {
            return Err(MnemonicError::InvalidWordCount(result.formatted_word_count));
        }
        let trimmed = str_trim(result.formatted_seed_phrase.as_str());
        if trimmed.as_str().is_empty() {
            return Err(MnemonicError::EmptyMnemonic);
        }
        let c = result.formatted_word_count;
        if !(c == 12 || c == 15 || c == 18 || c == 21 || c == 24) {
            return Err(MnemonicError::InvalidWordCount(c));
        }
        Ok(())
    }
}

} // verus!
