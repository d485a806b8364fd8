//! Verified text utilities: character classes, whitespace splitting,
//! joining, trimming and substring search, together with the few trusted
//! bridges to std's Unicode machinery.

use vstd::prelude::*;
use vstd::std_specs::iter::IteratorSpec;

verus! {

broadcast use vstd::string::group_string_axioms;

// ---------------------------------------------------------------------------
// Trusted bridges to std.
// ---------------------------------------------------------------------------
/// What `char::is_whitespace` returns: membership in Unicode White_Space.
pub uninterp spec fn ws_char(c: char) -> bool;

/// Relies on std's `char::is_whitespace` (the Unicode White_Space
/// property).  Space, tab, line feed and carriage return have the
/// property; the other printable ASCII characters do not.
#[verifier::external_body]
pub(crate) fn char_is_whitespace(c: char) -> (r: bool)
    ensures
        r == ws_char(c),
        c == ' ' || c == '\t' || c == '\n' || c == '\r' ==> r,
        0x20 < (c as u32) < 0x7F ==> !r,
{
    c.is_whitespace()
}

/// What `char::is_alphabetic` returns: membership in Unicode Alphabetic.
pub uninterp spec fn alpha_char(c: char) -> bool;

/// Relies on std's `char::is_alphabetic` (the Unicode Alphabetic
/// property).  The ASCII letters have the property; the other ASCII
/// characters do not.
#[verifier::external_body]
pub(crate) fn char_is_alphabetic(c: char) -> (r: bool)
    ensures
        r == alpha_char(c),
        0x41 <= (c as u32) <= 0x5A || 0x61 <= (c as u32) <= 0x7A ==> r,
        (c as u32) < 0x41 ==> !r,
        0x5B <= (c as u32) <= 0x60 ==> !r,
        0x7B <= (c as u32) <= 0x7F ==> !r,
{
    c.is_alphabetic()
}

/// What `str::to_lowercase` returns on a given character sequence.
pub uninterp spec fn lower_of(s: Seq<char>) -> Seq<char>;

/// Relies on std's `str::to_lowercase`.  The result is a function of
/// the input characters alone.
#[verifier::external_body]
pub(crate) fn str_to_lowercase(s: &str) -> (r: String)
    ensures
        r@ == lower_of(s@),
{
    s.to_lowercase()
}

/// What `str::to_uppercase` returns on a given character sequence.
pub uninterp spec fn upper_of(s: Seq<char>) -> Seq<char>;

/// Relies on std's `str::to_uppercase`.  The result is a function of
/// the input characters alone.
#[verifier::external_body]
pub(crate) fn str_to_uppercase(s: &str) -> (r: String)
    ensures
        r@ == upper_of(s@),
{
    s.to_uppercase()
}

/// Relies on std's `String::push`: appends one character.
#[verifier::external_body]
pub(crate) fn push_char(s: &mut String, c: char)
    ensures
        final(s)@ == old(s)@ + seq![c],
{
    s.push(c);
}

/// Relies on std's `String::from_utf8`: succeeds exactly on valid UTF-8
/// and returns the string those bytes encode.
#[verifier::external_body]
pub(crate) fn string_from_utf8(v: Vec<u8>) -> (r: Option<String>)
    ensures
        r is Some <==> vstd::utf8::valid_utf8(v@),
        r is Some ==> r->0@ == vstd::utf8::decode_utf8(v@),
{
    String::from_utf8(v).ok()
}

// ---------------------------------------------------------------------------
// Verified helpers.
// ---------------------------------------------------------------------------
/// Collects the characters of a string slice.
pub fn str_chars(s: &str) -> (r: Vec<char>)
    ensures
        r@ == s@,
{
    let mut it = s.chars();
    let mut r: Vec<char> = Vec::new();
    loop
        invariant
            it.obeys_prophetic_iter_laws(),
            it.decrease() is Some,
            r@ + it.remaining() == s@,
        decreases it.decrease()->0,
    {
        match it.next() {
            Some(c) => {
                r.push(c);
            },
            None => {
                proof {
                    assert(r@ =~= s@);
                }
                return r;
            },
        }
    }
}

/// Builds a string from a sequence of characters.
pub fn chars_to_string(v: &Vec<char>, start: usize, end: usize) -> (r: String)
    requires
        start <= end <= v@.len(),
    ensures
        r@ == v@.subrange(start as int, end as int),
{
    let mut r = String::new();
    let mut i = start;
    while i < end
        invariant
            start <= i <= end <= v@.len(),
            r@ == v@.subrange(start as int, i as int),
        decreases end - i,
    {
        push_char(&mut r, v[i]);
        i = i + 1;
        proof {
            assert(v@.subrange(start as int, i as int) =~= v@.subrange(start as int, i - 1)
                + seq![v@[i - 1]]);
        }
    }
    r
}

// ---------------------------------------------------------------------------
// Whitespace splitting.
// ---------------------------------------------------------------------------
/// The longest whitespace-free prefix.
pub open spec fn word_prefix(s: Seq<char>) -> Seq<char>
    decreases s.len(),
{
    if s.len() == 0 || ws_char(s[0]) {
        Seq::empty()
    } else {
        seq![s[0]] + word_prefix(s.drop_first())
    }
}

pub proof fn lemma_word_prefix(s: Seq<char>)
    ensures
        word_prefix(s).len() <= s.len(),
        s.len() > 0 && !ws_char(s[0]) ==> word_prefix(s).len() >= 1,
        word_prefix(s) == s.subrange(0, word_prefix(s).len() as int),
        forall|i: int| 0 <= i < word_prefix(s).len() ==> !ws_char(#[trigger] s[i]),
        word_prefix(s).len() < s.len() ==> ws_char(s[word_prefix(s).len() as int]),
    decreases s.len(),
{
    if s.len() == 0 || ws_char(s[0]) {
        assert(word_prefix(s) =~= s.subrange(0, 0));
    } else {
        lemma_word_prefix(s.drop_first());
        let t = s.drop_first();
        let w = word_prefix(s);
        assert(w == seq![s[0]] + word_prefix(t));
        assert(w =~= s.subrange(0, w.len() as int));
        assert(forall|i: int|
            1 <= i < w.len() ==> s[i] == t[i - 1] && !ws_char(#[trigger] s[i]));
    }
}

/// The whitespace-separated words of a character sequence, in order,
/// each non-empty.
pub open spec fn split_ws(s: Seq<char>) -> Seq<Seq<char>>
    decreases s.len(),
    via split_ws_decreases
{
    if s.len() == 0 {
        Seq::empty()
    } else if ws_char(s[0]) {
        split_ws(s.drop_first())
    } else {
        seq![word_prefix(s)] + split_ws(s.skip(word_prefix(s).len() as int))
    }
}

#[via_fn]
proof fn split_ws_decreases(s: Seq<char>) {
    if s.len() != 0 && !ws_char(s[0]) {
        lemma_word_prefix(s);
    }
}

/// A word of a non-ws region: `word_prefix` from `a` runs exactly to `b`
/// when nothing in between is whitespace and `b` sits at the end or at a
/// whitespace character.
proof fn lemma_word_prefix_range(s: Seq<char>, a: int, b: int)
    requires
        0 <= a <= b <= s.len(),
        forall|i: int| a <= i < b ==> !ws_char(#[trigger] s[i]),
        b == s.len() || ws_char(s[b]),
    ensures
        word_prefix(s.skip(a)) == s.subrange(a, b),
    decreases b - a,
{
    let t = s.skip(a);
    if a == b {
        if t.len() > 0 {
            assert(t[0] == s[a]);
        }
        assert(word_prefix(t) =~= s.subrange(a, b));
    } else {
        assert(t[0] == s[a]);
        lemma_word_prefix_range(s, a + 1, b);
        assert(t.drop_first() =~= s.skip(a + 1));
        assert(word_prefix(t) == seq![s[a]] + word_prefix(s.skip(a + 1)));
        assert(word_prefix(t) =~= s.subrange(a, b));
    }
}

/// Splits a string on whitespace, as `str::split_whitespace` does.
pub fn split_whitespace_words(s: &str) -> (r: Vec<String>)
    ensures
        r@.map_values(|w: String| w@) == split_ws(s@),
{
    let chars = str_chars(s);
    split_whitespace_chars(&chars)
}

/// Splits a character vector on whitespace.
pub fn split_whitespace_chars(chars: &Vec<char>) -> (r: Vec<String>)
    ensures
        r@.map_values(|w: String| w@) == split_ws(chars@),
{
    let n = chars.len();
    let mut words: Vec<String> = Vec::new();
    let mut i: usize = 0;
    proof {
        assert(chars@.skip(0) =~= chars@);
        assert(words@.map_values(|w: String| w@) + split_ws(chars@) =~= split_ws(chars@));
    }
    while i < n
        invariant
            i <= n,
            n == chars@.len(),
            words@.map_values(|w: String| w@) + split_ws(chars@.skip(i as int)) == split_ws(
                chars@,
            ),
        decreases n - i,
    {
        let ghost pre = chars@.skip(i as int);
        if char_is_whitespace(chars[i]) {
            i = i + 1;
            proof {
                assert(pre.drop_first() =~= chars@.skip(i as int));
                assert(split_ws(pre) == split_ws(chars@.skip(i as int)));
            }
        } else {
            let start = i;
            i = i + 1;
            while i < n && !char_is_whitespace(chars[i])
                invariant
                    start < i <= n,
                    n == chars@.len(),
                    forall|j: int| start <= j < i ==> !ws_char(#[trigger] chars@[j]),
                decreases n - i,
            {
                i = i + 1;
            }
            let w = chars_to_string(chars, start, i);
            proof {
                lemma_word_prefix_range(chars@, start as int, i as int);
                lemma_word_prefix(chars@.skip(start as int));
                assert(pre[0] == chars@[start as int]);
                assert(word_prefix(pre) == chars@.subrange(start as int, i as int));
                assert(pre.skip(word_prefix(pre).len() as int) =~= chars@.skip(i as int));
                assert(split_ws(pre) == seq![w@] + split_ws(chars@.skip(i as int)));
                assert((words@ + seq![w]).map_values(|x: String| x@) =~= words@.map_values(
                    |x: String| x@,
                ) + seq![w@]);
            }
            words.push(w);
        }
    }
    proof {
        assert(chars@.skip(n as int) =~= Seq::<char>::empty());
        assert(words@.map_values(|w: String| w@) + Seq::<Seq<char>>::empty() =~= words@.map_values(
            |w: String| w@,
        ));
    }
    words
}

// ---------------------------------------------------------------------------
// Joining.
// ---------------------------------------------------------------------------
/// The words joined with a single space between them.
pub open spec fn join_space(ws: Seq<Seq<char>>) -> Seq<char>
    decreases ws.len(),
{
    if ws.len() == 0 {
        Seq::empty()
    } else if ws.len() == 1 {
        ws[0]
    } else {
        ws[0] + seq![' '] + join_space(ws.drop_first())
    }
}

proof fn lemma_join_space_push(ws: Seq<Seq<char>>, w: Seq<char>)
    ensures
        ws.len() == 0 ==> join_space(ws.push(w)) == w,
        ws.len() >= 1 ==> join_space(ws.push(w)) == join_space(ws) + seq![' '] + w,
    decreases ws.len(),
{
    if ws.len() == 0 {
        assert(ws.push(w)[0] == w);
        assert(join_space(ws.push(w)) == w);
    } else if ws.len() == 1 {
        assert(ws.push(w).drop_first() =~= seq![w]);
        assert(join_space(seq![w]) == w);
        assert(ws.push(w)[0] == ws[0]);
    } else {
        lemma_join_space_push(ws.drop_first(), w);
        assert(ws.push(w).drop_first() =~= ws.drop_first().push(w));
        assert(ws.push(w)[0] == ws[0]);
    }
}

/// Joins words with single spaces.
pub fn join_with_space(words: &Vec<String>) -> (r: String)
    ensures
        r@ == join_space(words@.map_values(|w: String| w@)),
{
    let ghost ws = words@.map_values(|w: String| w@);
    let mut r = String::new();
    let n = words.len();
    let mut i: usize = 0;
    while i < n
        invariant
            i <= n,
            n == words@.len(),
            ws == words@.map_values(|w: String| w@),
            r@ == join_space(ws.take(i as int)),
        decreases n - i,
    {
        if i > 0 {
            push_char(&mut r, ' ');
        }
        r.append(words[i].as_str());
        i = i + 1;
        proof {
            assert(ws.take(i as int) =~= ws.take(i - 1).push(ws[i - 1]));
            lemma_join_space_push(ws.take(i - 1), ws[i - 1]);
        }
    }
    proof {
        assert(ws.take(n as int) =~= ws);
    }
    r
}

/// The fields joined with a single separator between them.
pub open spec fn join_sep(ws: Seq<Seq<char>>, sep: char) -> Seq<char>
    decreases ws.len(),
{
    if ws.len() == 0 {
        Seq::empty()
    } else if ws.len() == 1 {
        ws[0]
    } else {
        ws[0] + seq![sep] + join_sep(ws.drop_first(), sep)
    }
}

proof fn lemma_join_sep_push(ws: Seq<Seq<char>>, w: Seq<char>, sep: char)
    ensures
        ws.len() == 0 ==> join_sep(ws.push(w), sep) == w,
        ws.len() >= 1 ==> join_sep(ws.push(w), sep) == join_sep(ws, sep) + seq![sep] + w,
    decreases ws.len(),
{
    if ws.len() == 0 {
        assert(ws.push(w)[0] == w);
        assert(join_sep(ws.push(w), sep) == w);
    } else if ws.len() == 1 {
        assert(ws.push(w).drop_first() =~= seq![w]);
        assert(join_sep(seq![w], sep) == w);
        assert(ws.push(w)[0] == ws[0]);
    } else {
        lemma_join_sep_push(ws.drop_first(), w, sep);
        assert(ws.push(w).drop_first() =~= ws.drop_first().push(w));
        assert(ws.push(w)[0] == ws[0]);
    }
}

/// Joins fields with a single separator character.
pub fn join_with_sep(words: &Vec<String>, from: usize, sep: char) -> (r: String)
    requires
        from <= words@.len(),
    ensures
        r@ == join_sep(words@.map_values(|w: String| w@).skip(from as int), sep),
{
    let ghost ws = words@.map_values(|w: String| w@).skip(from as int);
    let mut r = String::new();
    let n = words.len();
    let mut i = from;
    while i < n
        invariant
            from <= i <= n,
            n == words@.len(),
            ws == words@.map_values(|w: String| w@).skip(from as int),
            r@ == join_sep(ws.take(i - from), sep),
        decreases n - i,
    {
        if i > from {
            push_char(&mut r, sep);
        }
        r.append(words[i].as_str());
        i = i + 1;
        proof {
            assert(ws.take(i - from) =~= ws.take(i - from - 1).push(ws[i - from - 1]));
            lemma_join_sep_push(ws.take(i - from - 1), ws[i - from - 1], sep);
            assert(ws[i - from - 1] == words@[i - 1]@);
        }
    }
    proof {
        assert(ws.take(n - from) =~= ws);
    }
    r
}

/// Suffix test over character vectors.
pub fn chars_have_suffix(chars: &Vec<char>, from: usize, to: usize, p: &Vec<char>) -> (r: bool)
    requires
        from <= to <= chars@.len(),
    ensures
        r == has_suffix(chars@.subrange(from as int, to as int), p@),
{
    let ghost s = chars@.subrange(from as int, to as int);
    if to - from < p.len() {
        return false;
    }
    let start = to - p.len();
    let hit = chars_have_prefix(chars, start, to, p);
    proof {
        assert(chars@.subrange(start as int, to as int) =~= s.subrange(
            s.len() - p@.len(),
            s.len() as int,
        ));
        assert(chars@.subrange(start as int, to as int).subrange(0, p@.len() as int)
            =~= chars@.subrange(start as int, to as int));
    }
    hit
}

// ---------------------------------------------------------------------------
// Trimming.
// ---------------------------------------------------------------------------
/// The sequence with leading whitespace removed.
pub open spec fn trim_start_of(s: Seq<char>) -> Seq<char>
    decreases s.len(),
{
    if s.len() == 0 || !ws_char(s[0]) {
        s
    } else {
        trim_start_of(s.drop_first())
    }
}

/// The sequence with trailing whitespace removed.
pub open spec fn trim_end_of(s: Seq<char>) -> Seq<char>
    decreases s.len(),
{
    if s.len() == 0 || !ws_char(s.last()) {
        s
    } else {
        trim_end_of(s.drop_last())
    }
}

/// The sequence with whitespace removed from both ends, as `str::trim`.
pub open spec fn trim_of(s: Seq<char>) -> Seq<char> {
    trim_end_of(trim_start_of(s))
}

proof fn lemma_trim_start_skip(s: Seq<char>, i: int)
    requires
        0 <= i <= s.len(),
        forall|j: int| 0 <= j < i ==> ws_char(#[trigger] s[j]),
    ensures
        trim_start_of(s) == trim_start_of(s.skip(i)),
    decreases i,
{
    if i > 0 {
        assert(s.len() > 0 && ws_char(s[0]));
        assert(trim_start_of(s) == trim_start_of(s.drop_first()));
        assert(s.drop_first() =~= s.skip(1));
        lemma_trim_start_skip(s.skip(1), i - 1);
        assert(s.skip(1).skip(i - 1) =~= s.skip(i));
    } else {
        assert(s.skip(0) =~= s);
    }
}

proof fn lemma_trim_end_take(s: Seq<char>, i: int)
    requires
        0 <= i <= s.len(),
        forall|j: int| i <= j < s.len() ==> ws_char(#[trigger] s[j]),
    ensures
        trim_end_of(s) == trim_end_of(s.take(i)),
    decreases s.len() - i,
{
    if i < s.len() {
        assert(ws_char(s.last()));
        assert(trim_end_of(s) == trim_end_of(s.drop_last()));
        assert(s.drop_last() =~= s.take(s.len() - 1));
        lemma_trim_end_take(s.take(s.len() - 1), i);
        assert(s.take(s.len() - 1).take(i) =~= s.take(i));
    } else {
        assert(s.take(i) =~= s);
    }
}

/// Trims whitespace from both ends, as `str::trim` does.
pub fn trim_chars(chars: &Vec<char>, from: usize, to: usize) -> (r: (usize, usize))
    requires
        from <= to <= chars@.len(),
    ensures
        from <= r.0 <= r.1 <= to,
        chars@.subrange(r.0 as int, r.1 as int) == trim_of(chars@.subrange(from as int, to as int)),
{
    let ghost s = chars@.subrange(from as int, to as int);
    let mut a = from;
    while a < to && char_is_whitespace(chars[a])
        invariant
            from <= a <= to <= chars@.len(),
            forall|j: int| from <= j < a ==> ws_char(#[trigger] chars@[j]),
        decreases to - a,
    {
        a = a + 1;
    }
    proof {
        lemma_trim_start_skip(s, a - from);
        assert(s.skip(a - from) =~= chars@.subrange(a as int, to as int));
    }
    // Now trim_start_of(s) == chars[a..to], and either a == to or chars[a] is not ws.
    let mut b = to;
    while b > a && char_is_whitespace(chars[b - 1])
        invariant
            a <= b <= to <= chars@.len(),
            forall|j: int| b <= j < to ==> ws_char(#[trigger] chars@[j]),
        decreases b,
    {
        b = b - 1;
    }
    proof {
        let t = chars@.subrange(a as int, to as int);
        assert(trim_start_of(s) == t);
        if a < to && !ws_char(chars@[a as int]) {
            assert(t[0] == chars@[a as int]);
            assert(trim_start_of(t) == t);
        }
        lemma_trim_end_take(t, b - a);
        assert(t.take(b - a) =~= chars@.subrange(a as int, b as int));
        if b > a {
            assert(!ws_char(chars@[b - 1]));
            assert(chars@.subrange(a as int, b as int).last() == chars@[b - 1]);
            assert(trim_end_of(chars@.subrange(a as int, b as int)) == chars@.subrange(
                a as int,
                b as int,
            ));
        } else {
            assert(chars@.subrange(a as int, b as int).len() == 0);
        }
    }
    (a, b)
}

/// Trims a string slice.
pub fn str_trim(s: &str) -> (r: String)
    ensures
        r@ == trim_of(s@),
{
    let chars = str_chars(s);
    let (a, b) = trim_chars(&chars, 0, chars.len());
    proof {
        assert(chars@.subrange(0, chars@.len() as int) =~= chars@);
    }
    chars_to_string(&chars, a, b)
}

// ---------------------------------------------------------------------------
// Separator splitting, prefixes, suffixes and search.
// ---------------------------------------------------------------------------
/// The prefix running up to the first occurrence of `sep` (the whole
/// sequence when `sep` does not occur).
pub open spec fn prefix_to_sep(s: Seq<char>, sep: char) -> Seq<char>
    decreases s.len(),
{
    if s.len() == 0 || s[0] == sep {
        Seq::empty()
    } else {
        seq![s[0]] + prefix_to_sep(s.drop_first(), sep)
    }
}

pub proof fn lemma_prefix_to_sep(s: Seq<char>, sep: char)
    ensures
        prefix_to_sep(s, sep).len() <= s.len(),
        prefix_to_sep(s, sep) == s.subrange(0, prefix_to_sep(s, sep).len() as int),
        forall|i: int| 0 <= i < prefix_to_sep(s, sep).len() ==> s[i] != sep,
        prefix_to_sep(s, sep).len() < s.len() ==> s[prefix_to_sep(s, sep).len() as int] == sep,
    decreases s.len(),
{
    if s.len() == 0 || s[0] == sep {
        assert(prefix_to_sep(s, sep) =~= s.subrange(0, 0));
    } else {
        lemma_prefix_to_sep(s.drop_first(), sep);
        let t = s.drop_first();
        let w = prefix_to_sep(s, sep);
        assert(w == seq![s[0]] + prefix_to_sep(t, sep));
        assert(w =~= s.subrange(0, w.len() as int));
        assert(forall|i: int| 1 <= i < w.len() ==> s[i] == t[i - 1] && #[trigger] s[i] != sep);
    }
}

/// The fields of `s` split on the separator, as `str::split` yields
/// them: empty fields are kept, and `n` separators give `n + 1` fields.
pub open spec fn split_on(s: Seq<char>, sep: char) -> Seq<Seq<char>>
    decreases s.len(),
    via split_on_decreases
{
    let p = prefix_to_sep(s, sep);
    if p.len() == s.len() {
        seq![s]
    } else {
        seq![p] + split_on(s.skip(p.len() as int + 1), sep)
    }
}

#[via_fn]
proof fn split_on_decreases(s: Seq<char>, sep: char) {
    lemma_prefix_to_sep(s, sep);
}

pub proof fn lemma_prefix_to_sep_range(s: Seq<char>, sep: char, a: int, b: int)
    requires
        0 <= a <= b <= s.len(),
        forall|i: int| a <= i < b ==> s[i] != sep,
        b == s.len() || s[b] == sep,
    ensures
        prefix_to_sep(s.skip(a), sep) == s.subrange(a, b),
    decreases b - a,
{
    let t = s.skip(a);
    if a == b {
        if t.len() > 0 {
            assert(t[0] == s[a]);
        }
        assert(prefix_to_sep(t, sep) =~= s.subrange(a, b));
    } else {
        assert(t[0] == s[a]);
        lemma_prefix_to_sep_range(s, sep, a + 1, b);
        assert(t.drop_first() =~= s.skip(a + 1));
        assert(prefix_to_sep(t, sep) == seq![s[a]] + prefix_to_sep(s.skip(a + 1), sep));
        assert(prefix_to_sep(t, sep) =~= s.subrange(a, b));
    }
}

/// Splits on a separator character, as `str::split` does.
pub fn split_on_char(chars: &Vec<char>, sep: char) -> (r: Vec<String>)
    ensures
        r@.map_values(|w: String| w@) == split_on(chars@, sep),
{
    let n = chars.len();
    let mut fields: Vec<String> = Vec::new();
    let mut i: usize = 0;
    proof {
        assert(chars@.skip(0) =~= chars@);
        assert(fields@.map_values(|w: String| w@) + split_on(chars@, sep) =~= split_on(
            chars@,
            sep,
        ));
    }
    loop
        invariant
            i <= n,
            n == chars@.len(),
            fields@.map_values(|w: String| w@) + split_on(chars@.skip(i as int), sep) == split_on(
                chars@,
            sep),
        decreases n - i,
    {
        let ghost pre = chars@.skip(i as int);
        let start = i;
        while i < n && chars[i] != sep
            invariant
                start <= i <= n,
                n == chars@.len(),
                forall|j: int| start <= j < i ==> chars@[j] != sep,
            decreases n - i,
        {
            i = i + 1;
        }
        let f = chars_to_string(chars, start, i);
        proof {
            lemma_prefix_to_sep_range(chars@, sep, start as int, i as int);
            lemma_prefix_to_sep(pre, sep);
        }
        if i == n {
            proof {
                assert(split_on(pre, sep) == seq![f@]);
                assert((fields@ + seq![f]).map_values(|x: String| x@) =~= fields@.map_values(
                    |x: String| x@,
                ) + seq![f@]);
            }
            fields.push(f);
            return fields;
        } else {
            proof {
                assert(chars@[i as int] == sep);
                assert(prefix_to_sep(pre, sep).len() < pre.len());
                assert(pre.skip(prefix_to_sep(pre, sep).len() as int + 1) =~= chars@.skip(i + 1));
                assert(split_on(pre, sep) == seq![f@] + split_on(chars@.skip(i + 1), sep));
                assert((fields@ + seq![f]).map_values(|x: String| x@) =~= fields@.map_values(
                    |x: String| x@,
                ) + seq![f@]);
            }
            fields.push(f);
            i = i + 1;
        }
    }
}

/// Whether `p` is a prefix of `s`.
pub open spec fn has_prefix(s: Seq<char>, p: Seq<char>) -> bool {
    s.len() >= p.len() && s.subrange(0, p.len() as int) == p
}

/// Whether `p` is a suffix of `s`.
pub open spec fn has_suffix(s: Seq<char>, p: Seq<char>) -> bool {
    s.len() >= p.len() && s.subrange(s.len() - p.len(), s.len() as int) == p
}

/// Whether `needle` occurs contiguously inside `s`.
pub open spec fn contains_seq(s: Seq<char>, needle: Seq<char>) -> bool {
    exists|i: int|
        0 <= i <= s.len() - needle.len() && #[trigger] s.subrange(i, i + needle.len()) == needle
}

/// Prefix test over character vectors.
pub fn chars_have_prefix(chars: &Vec<char>, from: usize, to: usize, p: &Vec<char>) -> (r: bool)
    requires
        from <= to <= chars@.len(),
    ensures
        r == has_prefix(chars@.subrange(from as int, to as int), p@),
{
    let ghost s = chars@.subrange(from as int, to as int);
    if to - from < p.len() {
        return false;
    }
    let n = p.len();
    let mut i: usize = 0;
    while i < n
        invariant
            i <= n,
            n == p@.len(),
            n <= to - from,
            from <= to <= chars@.len(),
            s == chars@.subrange(from as int, to as int),
            forall|j: int| 0 <= j < i ==> s[j] == p@[j],
        decreases n - i,
    {
        if chars[from + i] != p[i] {
            proof {
                assert(s[i as int] == chars@[from + i]);
                assert(s.subrange(0, n as int)[i as int] == s[i as int]);
            }
            return false;
        }
        proof {
            assert(s[i as int] == chars@[from + i]);
        }
        i = i + 1;
    }
    proof {
        assert(s.subrange(0, n as int) =~= p@);
    }
    true
}

/// Substring search: whether `needle` occurs in `chars[from..to]`.
pub fn chars_contain(chars: &Vec<char>, from: usize, to: usize, needle: &Vec<char>) -> (r: bool)
    requires
        from <= to <= chars@.len(),
    ensures
        r == contains_seq(chars@.subrange(from as int, to as int), needle@),
{
    let ghost s = chars@.subrange(from as int, to as int);
    if to - from < needle.len() {
        proof {
            assert(!contains_seq(s, needle@));
        }
        return false;
    }
    if needle.len() == 0 {
        proof {
            assert(s.subrange(0, 0 + needle@.len() as int) =~= needle@);
            assert(contains_seq(s, needle@));
        }
        return true;
    }
    let last = to - needle.len();
    let mut i = from;
    while i <= last
        invariant
            from <= i,
            i <= last + 1,
            last == to - needle@.len(),
            from <= to <= chars@.len(),
            1 <= needle@.len() <= to - from,
            s == chars@.subrange(from as int, to as int),
            forall|k: int|
                0 <= k < i - from ==> #[trigger] s.subrange(k, k + needle@.len()) != needle@,
        decreases last + 1 - i,
    {
        let hit = chars_have_prefix(chars, i, to, needle);
        proof {
            assert(chars@.subrange(i as int, to as int) =~= s.skip(i - from));
            assert(s.skip(i - from).subrange(0, needle@.len() as int) =~= s.subrange(
                i - from,
                i - from + needle@.len(),
            ));
        }
        if hit {
            proof {
                assert(s.subrange(i - from, i - from + needle@.len()) == needle@);
            }
            return true;
        }
        i = i + 1;
    }
    proof {
        assert(forall|k: int|
            0 <= k <= s.len() - needle@.len() ==> #[trigger] s.subrange(k, k + needle@.len())
                != needle@);
    }
    false
}

/// A text splits into no words exactly when trimming leaves nothing:
/// both say that every character is whitespace.
pub proof fn lemma_no_words_iff_trim_empty(s: Seq<char>)
    ensures
        (split_ws(s).len() == 0) <==> (forall|i: int| 0 <= i < s.len() ==> ws_char(#[trigger] s[i])),
        (trim_of(s).len() == 0) <==> (forall|i: int| 0 <= i < s.len() ==> ws_char(#[trigger] s[i])),
    decreases s.len(),
{
    if s.len() == 0 {
    } else if ws_char(s[0]) {
        lemma_no_words_iff_trim_empty(s.drop_first());
        assert(forall|i: int|
            1 <= i < s.len() ==> s.drop_first()[i - 1] == #[trigger] s[i]);
        assert(trim_start_of(s) == trim_start_of(s.drop_first()));
    } else {
        lemma_word_prefix(s);
        assert(split_ws(s).len() >= 1);
        assert(trim_start_of(s) == s);
        lemma_trim_end_keeps_head(s);
    }
}

/// Trimming the end cannot remove a leading non-whitespace character.
proof fn lemma_trim_end_keeps_head(s: Seq<char>)
    requires
        s.len() > 0,
        !ws_char(s[0]),
    ensures
        trim_end_of(s).len() >= 1,
    decreases s.len(),
{
    if s.len() == 1 {
        assert(s.last() == s[0]);
    } else if ws_char(s.last()) {
        assert(s.drop_last()[0] == s[0]);
        lemma_trim_end_keeps_head(s.drop_last());
    }
}

/// UTF-8 spends at most four bytes per character.
pub proof fn lemma_encode_utf8_len(chars: Seq<char>)
    ensures
        vstd::utf8::encode_utf8(chars).len() <= 4 * chars.len(),
    decreases chars.len(),
{
    if chars.len() > 0 {
        lemma_encode_utf8_len(chars.drop_first());
    }
}

/// Compares two string slices by their characters.
pub fn str_eq(a: &str, b: &str) -> (r: bool)
    ensures
        r == (a@ == b@),
{
    let av = str_chars(a);
    let bv = str_chars(b);
    if av.len() != bv.len() {
        return false;
    }
    let n = av.len();
    let mut i: usize = 0;
    while i < n
        invariant
            i <= n,
            av@.len() == n,
            bv@.len() == n,
            av@ == a@,
            bv@ == b@,
            forall|j: int| 0 <= j < i ==> av@[j] == bv@[j],
        decreases n - i,
    {
        if av[i] != bv[i] {
            return false;
        }
        i = i + 1;
    }
    proof {
        assert(a@ =~= b@);
    }
    true
}

} // verus!
