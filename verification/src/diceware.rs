//! The diceware word list and passphrase handling: parsing the list,
//! validating a passphrase against it, and drawing a fresh passphrase.

use vstd::prelude::*;
use rand::Rng;

use crate::strutil::join_space;
use crate::strutil::join_with_space;
use crate::strutil::lower_of;
use crate::strutil::split_whitespace_words;
use crate::strutil::split_on;
use crate::strutil::split_on_char;
use crate::strutil::split_ws;
use crate::strutil::str_chars;
use crate::strutil::str_to_lowercase;
use crate::strutil::str_trim;
use crate::strutil::trim_of;

verus! {

/// A word list, held as a collection of distinct lowercase words and
/// viewed as the set of their character sequences.
pub struct WordList {
    words: Vec<String>,
}

impl View for WordList {
    type V = Set<Seq<char>>;

    closed spec fn view(&self) -> Set<Seq<char>> {
        Set::new(|w: Seq<char>| exists|i: int| 0 <= i < self.words@.len() && self.words@[i]@ == w)
    }
}

impl WordList {
    /// An empty word list.
    pub fn new() -> (r: WordList)
        ensures
            r@ == Set::<Seq<char>>::empty(),
    {
        let r = WordList { words: Vec::new() };
        proof {
            assert(r@ =~= Set::<Seq<char>>::empty());
        }
        r
    }

    /// Adds a word.
    pub fn insert(&mut self, word: String)
        ensures
            final(self)@ == old(self)@.insert(word@),
    {
        let ghost prev = self@;
        let ghost w = word@;
        self.words.push(word);
        proof {
            assert forall|x: Seq<char>| self@.contains(x) <==> prev.insert(w).contains(x) by {
                if x == w {
                    assert(self.words@[self.words@.len() - 1]@ == x);
                } else if prev.contains(x) {
                    let i = choose|i: int|
                        0 <= i < old(self).words@.len() && old(self).words@[i]@ == x;
                    assert(self.words@[i]@ == x);
                } else if self@.contains(x) {
                    let i = choose|i: int|
                        0 <= i < self.words@.len() && self.words@[i]@ == x;
                    assert(i < old(self).words@.len());
                }
            }
            assert(self@ =~= prev.insert(w));
        }
    }

    /// Whether the list is empty.
    pub fn is_empty(&self) -> (r: bool)
        ensures
            r <==> self@ == Set::<Seq<char>>::empty(),
    {
        let r = self.words.len() == 0;
        proof {
            if self.words@.len() > 0 {
                assert(self@.contains(self.words@[0]@));
            } else {
                assert(self@ =~= Set::<Seq<char>>::empty());
            }
        }
        r
    }

    /// Whether the list holds a word.
    pub fn contains(&self, word: &str) -> (r: bool)
        ensures
            r == self@.contains(word@),
    {
        let n = self.words.len();
        let mut i: usize = 0;
        while i < n
            invariant
                i <= n,
                n == self.words@.len(),
                forall|j: int| 0 <= j < i ==> self.words@[j]@ != word@,
            decreases n - i,
        {
            if crate::strutil::str_eq(self.words[i].as_str(), word) {
                proof {
                    assert(self.words@[i as int]@ == word@);
                }
                return true;
            }
            i = i + 1;
        }
        proof {
            if self@.contains(word@) {
                let j = choose|j: int| 0 <= j < self.words@.len() && self.words@[j]@ == word@;
            }
        }
        false
    }

}

/// The application's long-lived state: the word list, loaded once and
/// read thereafter.
pub struct AppState {
    pub wordlist: WordList,
}

/// The outcome of a passphrase validation.
pub struct ValidationResult {
    pub is_valid: bool,
    pub errors: Vec<String>,
    pub valid_words: Vec<String>,
    pub invalid_words: Vec<String>,
}

/// A valid passphrase: three to twenty words, each of them (lowercased)
/// in the word list, with no word repeated.
pub open spec fn passphrase_valid(s: Seq<char>, wl: Set<Seq<char>>) -> bool {
    let ws = split_ws(s);
    &&& 3 <= ws.len() <= 20
    &&& (forall|i: int| 0 <= i < ws.len() ==> wl.contains(lower_of(#[trigger] ws[i])))
    &&& (forall|i: int, j: int| 0 <= i < j < ws.len() ==> ws[i] != ws[j])
}

/// Validates a passphrase against the word list: word count between
/// three and twenty, each word in the list after lowercasing, and no
/// duplicate words.
pub fn validate_passphrase(passphrase: &str, wordlist: &WordList) -> (r: ValidationResult)
    ensures
        r.is_valid == passphrase_valid(passphrase@, wordlist@),
        r.is_valid <==> r.errors@.len() == 0,
        r.valid_words@.map_values(|w: String| w@) == split_ws(passphrase@).filter(
            |w: Seq<char>| wordlist@.contains(lower_of(w)),
        ),
        r.invalid_words@.map_values(|w: String| w@) == split_ws(passphrase@).filter(
            |w: Seq<char>| !wordlist@.contains(lower_of(w)),
        ),
{
    broadcast use vstd::seq_lib::group_filter_ensures;
    broadcast use Seq::lemma_filter_push;

    let words = split_whitespace_words(passphrase);
    let ghost ws = split_ws(passphrase@);
    let n = words.len();
    let mut errors: Vec<String> = Vec::new();
    let mut valid_words: Vec<String> = Vec::new();
    let mut invalid_words: Vec<String> = Vec::new();
    if n < 3 {
        errors.push("Passphrase must contain at least 3 words".to_owned());
    }
    if n > 20 {
        errors.push("Passphrase should not exceed 20 words".to_owned());
    }
    let mut i: usize = 0;
    let mut all_in_list = true;
    while i < n
        invariant
            i <= n,
            n == words@.len(),
            ws == words@.map_values(|w: String| w@),
            valid_words@.map_values(|w: String| w@) == ws.take(i as int).filter(
                |w: Seq<char>| wordlist@.contains(lower_of(w)),
            ),
            invalid_words@.map_values(|w: String| w@) == ws.take(i as int).filter(
                |w: Seq<char>| !wordlist@.contains(lower_of(w)),
            ),
            all_in_list <==> (forall|j: int|
                0 <= j < i ==> wordlist@.contains(lower_of(#[trigger] ws[j]))),
            all_in_list ==> errors@.len() == (if n < 3 {
                1int
            } else {
                0int
            }) + (if n > 20 {
                1int
            } else {
                0int
            }),
            !all_in_list ==> errors@.len() > (if n < 3 {
                1int
            } else {
                0int
            }) + (if n > 20 {
                1int
            } else {
                0int
            }),
        decreases n - i,
    {
        let lowered = str_to_lowercase(words[i].as_str());
        let ghost pre = ws.take(i as int);
        proof {
            assert(ws.take(i as int + 1) =~= pre.push(ws[i as int]));
            pre.lemma_filter_push(ws[i as int], |w: Seq<char>| wordlist@.contains(lower_of(w)));
            pre.lemma_filter_push(ws[i as int], |w: Seq<char>| !wordlist@.contains(lower_of(w)));
        }
        if wordlist.contains(lowered.as_str()) {
            valid_words.push(words[i].clone());
            proof {
                assert((valid_words@).map_values(|w: String| w@) =~= pre.filter(
                    |w: Seq<char>| wordlist@.contains(lower_of(w)),
                ).push(ws[i as int]));
                assert((invalid_words@).map_values(|w: String| w@) =~= ws.take(
                    i as int + 1,
                ).filter(|w: Seq<char>| !wordlist@.contains(lower_of(w))));
            }
        } else {
            invalid_words.push(words[i].clone());
            let mut msg = "'".to_owned();
            msg.append(words[i].as_str());
            msg.append("' is not in the EFF wordlist");
            errors.push(msg);
            all_in_list = false;
            proof {
                assert((invalid_words@).map_values(|w: String| w@) =~= pre.filter(
                    |w: Seq<char>| !wordlist@.contains(lower_of(w)),
                ).push(ws[i as int]));
                assert((valid_words@).map_values(|w: String| w@) =~= ws.take(
                    i as int + 1,
                ).filter(|w: Seq<char>| wordlist@.contains(lower_of(w))));
            }
        }
        i = i + 1;
    }
    proof {
        assert(ws.take(n as int) =~= ws);
    }
    // Duplicate words reduce entropy.
    let mut has_dup = false;
    let mut a: usize = 0;
    while a < n
        invariant
            a <= n,
            n == words@.len(),
            ws == words@.map_values(|w: String| w@),
            has_dup <==> (exists|i: int, j: int|
                0 <= i < j < a && #[trigger] ws[i] == #[trigger] ws[j]),
        decreases n - a,
    {
        let mut b: usize = 0;
        while b < a
            invariant
                b <= a < n,
                n == words@.len(),
                ws == words@.map_values(|w: String| w@),
                has_dup <==> ((exists|i: int, j: int|
                    0 <= i < j < a && #[trigger] ws[i] == #[trigger] ws[j]) || (exists|i: int|
                    0 <= i < b && #[trigger] ws[i] == ws[a as int])),
            decreases a - b,
        {
            if crate::strutil::str_eq(words[b].as_str(), words[a].as_str()) {
                proof {
                    assert(ws[b as int] == ws[a as int]);
                }
                has_dup = true;
            }
            b = b + 1;
        }
        a = a + 1;
    }
    if has_dup {
        errors.push(
            "Passphrase contains duplicate words, which reduces security".to_owned(),
        );
    }
    let is_valid = errors.len() == 0;
    ValidationResult { is_valid, errors, valid_words, invalid_words }
}

/// Draws a random word for each position and joins them with single
/// spaces.  Fails exactly on an empty word list or a zero word count.
pub fn generate_diceware_passphrase(word_count: usize, wordlist: &WordList) -> (r: Result<
    String,
    String,
>)
    ensures
        r is Ok <==> (word_count > 0 && wordlist@ != Set::<Seq<char>>::empty()),
        r matches Ok(s) ==> (exists|ws: Seq<Seq<char>>|
            ws.len() == word_count && (forall|i: int|
                0 <= i < ws.len() ==> wordlist@.contains(#[trigger] ws[i])) && s@
                == #[trigger] join_space(ws)),
{
    if wordlist.is_empty() {
        return Err("Wordlist is empty".to_owned());
    }
    if word_count == 0 {
        return Err("Word count must be greater than 0".to_owned());
    }
    let n = wordlist.words.len();
    proof {
        if n == 0 {
            assert(wordlist@ =~= Set::<Seq<char>>::empty());
        }
    }
    let mut selected: Vec<String> = Vec::new();
    let mut k: usize = 0;
    while k < word_count
        invariant
            k <= word_count,
            n == wordlist.words@.len(),
            n > 0,
            selected@.len() == k,
            forall|i: int| 0 <= i < k ==> wordlist@.contains(#[trigger] selected@[i]@),
        decreases word_count - k,
    {
        let idx = random_below(n);
        let w = wordlist.words[idx].clone();
        proof {
            assert(wordlist@.contains(wordlist.words@[idx as int]@));
        }
        selected.push(w);
        k = k + 1;
    }
    let joined = join_with_space(&selected);
    proof {
        let ws = selected@.map_values(|w: String| w@);
        assert(forall|i: int| 0 <= i < ws.len() ==> wordlist@.contains(#[trigger] ws[i]));
    }
    Ok(joined)
}

/// Relies on rand's `Rng::gen_range` over `thread_rng`: a uniformly
/// random index below the bound.  Only the bound is assumed.
#[verifier::external_body]
fn random_below(n: usize) -> (r: usize)
    requires
        n > 0,
    ensures
        r < n,
{
    rand::thread_rng().gen_range(0..n)
}

/// What one line of word-list text contributes: the second whitespace
/// token, lowercased, unless the line is blank or a comment.
pub open spec fn wordlist_entry_of(line: Seq<char>) -> Option<Seq<char>> {
    let t = trim_of(line);
    if t.len() == 0 || t[0] == '#' {
        None
    } else {
        let toks = split_ws(t);
        if toks.len() >= 2 {
            Some(lower_of(toks[1]))
        } else {
            None
        }
    }
}

/// Reads word-list text in the EFF format: one `"11111 word"` entry per
/// line, blank lines and `#` comments skipped.
pub fn parse_wordlist_content(content: &str) -> (r: WordList)
    ensures
        forall|w: Seq<char>|
            r@.contains(w) <==> (exists|i: int|
                0 <= i < split_on(content@, '\n').len() && wordlist_entry_of(
                    #[trigger] split_on(content@, '\n')[i],
                ) == Some(w)),
{
    let chars = str_chars(content);
    let lines = split_on_char(&chars, '\n');
    let ghost ls = split_on(content@, '\n');
    let mut wl = WordList::new();
    let n = lines.len();
    let mut i: usize = 0;
    while i < n
        invariant
            i <= n,
            n == lines@.len(),
            ls == lines@.map_values(|l: String| l@),
            forall|w: Seq<char>|
                wl@.contains(w) <==> (exists|j: int|
                    0 <= j < i && wordlist_entry_of(#[trigger] ls[j]) == Some(w)),
        decreases n - i,
    {
        let trimmed = str_trim(lines[i].as_str());
        let tchars = str_chars(trimmed.as_str());
        let mut entry: Option<String> = None;
        if tchars.len() > 0 && !(tchars[0] == '#') {
            let toks = split_whitespace_words(trimmed.as_str());
            if toks.len() >= 2 {
                entry = Some(str_to_lowercase(toks[1].as_str()));
            }
        }
        let ghost prev = wl@;
        match entry {
            Some(w) => {
                proof {
                    assert(wordlist_entry_of(ls[i as int]) == Some(w@));
                }
                wl.insert(w);
            },
            None => {
                proof {
                    assert(wordlist_entry_of(ls[i as int]) is None);
                }
            },
        }
        i = i + 1;
    }
    wl
}

} // verus!
