//! Wallet labels and file names: cosmetic metadata around an encrypted
//! seed phrase.  Timestamps are carried as already-formatted text.

use vstd::prelude::*;

use crate::numbers::all_dec_digits;
use crate::numbers::dec_of;
use crate::numbers::dec_val;
use crate::numbers::u64_to_dec;
use crate::strutil::chars_contain;
use crate::strutil::chars_have_suffix;
use crate::strutil::chars_to_string;
use crate::strutil::contains_seq;
use crate::strutil::has_suffix;
use crate::strutil::join_sep;
use crate::strutil::push_char;
use crate::strutil::split_on;
use crate::strutil::split_on_char;
use crate::strutil::str_chars;
use crate::strutil::str_eq;

verus! {

/// The kind of wallet a file belongs to.
#[derive(Debug, Clone)]
pub enum WalletType {
    MainWallet,
    ColdWallet,
    HotWallet,
    TestWallet,
    Custom(String),
}

/// The display label of a wallet type.
pub open spec fn wallet_type_label(t: WalletType) -> Seq<char> {
    match t {
        WalletType::MainWallet => "Main Wallet"@,
        WalletType::ColdWallet => "Cold Wallet"@,
        WalletType::HotWallet => "Hot Wallet"@,
        WalletType::TestWallet => "Test Wallet"@,
        WalletType::Custom(name) => name@,
    }
}

impl WalletType {
    /// The display label.
    pub fn to_string(&self) -> (r: String)
        ensures
            r@ == wallet_type_label(*self),
    {
        match self {
            WalletType::MainWallet => "Main Wallet".to_owned(),
            WalletType::ColdWallet => "Cold Wallet".to_owned(),
            WalletType::HotWallet => "Hot Wallet".to_owned(),
            WalletType::TestWallet => "Test Wallet".to_owned(),
            WalletType::Custom(name) => name.clone(),
        }
    }

    /// The type a display label names; an unknown label becomes a
    /// custom type carrying the text.
    pub fn from_string(s: &str) -> (r: WalletType)
        ensures
            s@ == "Main Wallet"@ ==> r is MainWallet,
            s@ == "Cold Wallet"@ ==> r is ColdWallet,
            s@ == "Hot Wallet"@ ==> r is HotWallet,
            s@ == "Test Wallet"@ ==> r is TestWallet,
            (s@ != "Main Wallet"@ && s@ != "Cold Wallet"@ && s@ != "Hot Wallet"@ && s@
                != "Test Wallet"@) ==> (r matches WalletType::Custom(n) && n@ == s@),
            wallet_type_label(r) == s@,
    {
        proof {
            reveal_strlit("Main Wallet");
            reveal_strlit("Cold Wallet");
            reveal_strlit("Hot Wallet");
            reveal_strlit("Test Wallet");
            assert("Main Wallet"@[0] == 'M' && "Cold Wallet"@[0] == 'C' && "Hot Wallet"@[0]
                == 'H' && "Test Wallet"@[0] == 'T');
        }
        if str_eq(s, "Main Wallet") {
            WalletType::MainWallet
        } else if str_eq(s, "Cold Wallet") {
            WalletType::ColdWallet
        } else if str_eq(s, "Hot Wallet") {
            WalletType::HotWallet
        } else if str_eq(s, "Test Wallet") {
            WalletType::TestWallet
        } else {
            WalletType::Custom(s.to_owned())
        }
    }
}

/// Metadata attached to a wallet before encryption.  The creation
/// timestamp is carried as `YYYYMMDD_HHMMSS` text.
#[derive(Debug, Clone)]
pub struct WalletMetadata {
    pub label: String,
    pub wallet_type: WalletType,
    pub created_at: String,
    pub seed_phrase_word_count: Option<usize>,
}

/// Metadata recovered about a wallet file.
#[derive(Debug, Clone)]
pub struct WalletInfo {
    pub label: String,
    pub wallet_type: WalletType,
    pub created_at: String,
    pub file_path: Option<String>,
    pub seed_phrase_word_count: Option<usize>,
}

/// The outcome of reading a file name back.
pub struct FilenameParseResult {
    pub is_wallet_file: bool,
    pub wallet_info: Option<WalletInfo>,
    pub original_filename: String,
}

/// A character as it may stand in a file name: the reserved characters
/// become underscores.
pub open spec fn safe_filename_char(c: char) -> char {
    if c == '/' || c == '\\' || c == ':' || c == '*' || c == '?' || c == '"' || c == '<' || c
        == '>' || c == '|' {
        '_'
    } else {
        c
    }
}

/// The suggested file name for a wallet:
/// `label_type[_Nwords]_timestamp.bin`, with reserved characters in the
/// label replaced.
pub open spec fn wallet_filename_of(m: WalletMetadata) -> Seq<char> {
    let safe_label = m.label@.map_values(|c: char| safe_filename_char(c));
    let suffix = match m.seed_phrase_word_count {
        Some(c) => "_"@ + dec_of(c as nat) + "words"@,
        None => Seq::empty(),
    };
    safe_label + "_"@ + wallet_type_label(m.wallet_type) + suffix + "_"@ + m.created_at@
        + ".bin"@
}

/// Builds the suggested file name for a wallet.
pub fn generate_wallet_filename(metadata: &WalletMetadata) -> (r: String)
    ensures
        r@ == wallet_filename_of(*metadata),
{
    let chars = str_chars(metadata.label.as_str());
    let mut safe = String::new();
    let n = chars.len();
    let mut i: usize = 0;
    while i < n
        invariant
            i <= n,
            n == chars@.len(),
            chars@ == metadata.label@,
            safe@ == chars@.take(i as int).map_values(|c: char| safe_filename_char(c)),
        decreases n - i,
    {
        let c = chars[i];
        let mapped = if c == '/' || c == '\\' || c == ':' || c == '*' || c == '?' || c == '"'
            || c == '<' || c == '>' || c == '|' {
            '_'
        } else {
            c
        };
        push_char(&mut safe, mapped);
        i = i + 1;
        proof {
            assert(chars@.take(i as int).map_values(|c: char| safe_filename_char(c)) =~= chars@
                .take(i - 1).map_values(|c: char| safe_filename_char(c)).push(
                safe_filename_char(chars@[i - 1]),
            ));
        }
    }
    proof {
        assert(chars@.take(n as int) =~= chars@);
    }
    let mut r = safe;
    r.append("_");
    let type_label = metadata.wallet_type.to_string();
    r.append(type_label.as_str());
    match metadata.seed_phrase_word_count {
        Some(c) => {
            r.append("_");
            let d = u64_to_dec(c as u64);
            r.append(d.as_str());
            r.append("words");
        },
        None => {
        },
    }
    r.append("_");
    r.append(metadata.created_at.as_str());
    r.append(".bin");
    proof {
        assert(r@ =~= wallet_filename_of(*metadata));
    }
    r
}


/// Whether chrono accepts a compact `YYYYMMDD_HHMMSS` timestamp.
pub uninterp spec fn compact_ts_valid(s: Seq<char>) -> bool;

/// Relies on chrono's `NaiveDateTime::parse_from_str` with the
/// `%Y%m%d_%H%M%S` format: acceptance is a function of the text alone,
/// and empty text is never accepted.
#[verifier::external_body]
fn is_compact_timestamp(s: &str) -> (r: bool)
    ensures
        r == compact_ts_valid(s@),
        s@.len() == 0 ==> !r,
{
    chrono::NaiveDateTime::parse_from_str(s, "%Y%m%d_%H%M%S").is_ok()
}

/// Relies on chrono's `Utc::now` and `format`: the current time as
/// compact `YYYYMMDD_HHMMSS` text.
#[verifier::external_body]
pub(crate) fn now_compact_timestamp() -> (r: String)
    ensures
        r@.len() >= 15,
{
    chrono::Utc::now().format("%Y%m%d_%H%M%S").to_string()
}

/// The file name with a `.bin` or `.txt` extension removed.
pub open spec fn strip_wallet_ext(name: Seq<char>) -> Seq<char> {
    if has_suffix(name, ".bin"@) {
        name.take(name.len() - 4)
    } else if has_suffix(name, ".txt"@) {
        name.take(name.len() - 4)
    } else {
        name
    }
}

/// The underscore-separated parts of the extension-free name.
pub open spec fn wallet_parts(filename: Seq<char>) -> Seq<Seq<char>> {
    split_on(strip_wallet_ext(filename), '_')
}

/// The first index at or after `i` whose part reads `BTC`, or the part
/// count when there is none.
pub open spec fn first_btc(parts: Seq<Seq<char>>, i: int) -> int
    decreases parts.len() - i,
{
    if i < 0 || i >= parts.len() {
        parts.len() as int
    } else if parts[i] == "BTC"@ {
        i
    } else {
        first_btc(parts, i + 1)
    }
}

/// The text with every repetition of the suffix removed from its end.
pub open spec fn strip_all_suffix(s: Seq<char>, suf: Seq<char>) -> Seq<char>
    decreases s.len(),
{
    if suf.len() > 0 && s.len() >= suf.len() && has_suffix(s, suf) {
        strip_all_suffix(s.take(s.len() - suf.len()), suf)
    } else {
        s
    }
}

/// The count text of the last part before `BTC`: its `words` or Chinese
/// suffix removed, when it carries one.
pub open spec fn words_count_text(last: Seq<char>) -> Option<Seq<char>> {
    if has_suffix(last, "words"@) {
        Some(strip_all_suffix(last, "words"@))
    } else if has_suffix(last, "\u{8bcd}"@) {
        Some(strip_all_suffix(last, "\u{8bcd}"@))
    } else {
        None
    }
}

/// The word count the file name declares, where the last part before
/// `BTC` carries a readable one.
pub open spec fn wallet_count_of(filename: Seq<char>) -> Option<usize> {
    let parts = wallet_parts(filename);
    let bp = first_btc(parts, 0);
    let before = parts.take(bp);
    if 0 < bp && bp + 1 < parts.len() {
        match words_count_text(before.last()) {
            Some(t) => {
                if t.len() > 0 && all_dec_digits(t) && dec_val(t) <= usize::MAX {
                    Some(dec_val(t) as usize)
                } else {
                    None
                }
            },
            None => None,
        }
    } else {
        None
    }
}

/// The parts holding the label and the wallet type: everything before
/// `BTC`, less a trailing word count.
pub open spec fn wallet_base_of(filename: Seq<char>) -> Seq<Seq<char>> {
    let parts = wallet_parts(filename);
    let before = parts.take(first_btc(parts, 0));
    if wallet_count_of(filename) is Some {
        before.drop_last()
    } else {
        before
    }
}

/// The label the file name declares.
pub open spec fn wallet_label_of(filename: Seq<char>) -> Seq<char> {
    wallet_base_of(filename)[0]
}

/// The wallet-type text the file name declares.
pub open spec fn wallet_type_str_of(filename: Seq<char>) -> Seq<char> {
    join_sep(wallet_base_of(filename).skip(1), '_')
}

/// The timestamp part after `BTC`.
pub open spec fn wallet_ts_of(filename: Seq<char>) -> Seq<char> {
    let parts = wallet_parts(filename);
    parts[first_btc(parts, 0) + 1]
}

/// Whether a file name reads as a wallet file: the `_BTC_` marker, at
/// least four parts, `BTC` inside the name with a part after it, and a
/// non-empty label and type before it.
pub open spec fn filename_is_wallet(filename: Seq<char>) -> bool {
    let stripped = strip_wallet_ext(filename);
    let parts = wallet_parts(filename);
    let bp = first_btc(parts, 0);
    &&& contains_seq(stripped, "_BTC_"@)
    &&& parts.len() >= 4
    &&& 0 < bp
    &&& bp + 1 < parts.len()
    &&& wallet_base_of(filename).len() >= 2
    &&& wallet_label_of(filename).len() > 0
    &&& wallet_type_str_of(filename).len() > 0
}

/// Removes every repetition of a suffix from the end of the text and
/// returns the remaining length.
fn strip_suffix_repeatedly(chars: &Vec<char>, suf: &Vec<char>) -> (r: usize)
    requires
        suf@.len() > 0,
    ensures
        r <= chars@.len(),
        chars@.take(r as int) == strip_all_suffix(chars@, suf@),
{
    let mut end = chars.len();
    proof {
        assert(chars@.take(end as int) =~= chars@);
    }
    loop
        invariant
            end <= chars@.len(),
            suf@.len() > 0,
            strip_all_suffix(chars@, suf@) == strip_all_suffix(chars@.take(end as int), suf@),
        decreases end,
    {
        let fits = end >= suf.len();
        let matched = if fits {
            chars_have_suffix(chars, 0, end, suf)
        } else {
            false
        };
        let ghost t = chars@.take(end as int);
        proof {
            if fits {
                assert(chars@.subrange(0, end as int) == t);
            }
        }
        if !matched {
            proof {
                assert(!has_suffix(t, suf@));
                assert(strip_all_suffix(t, suf@) == t);
            }
            return end;
        }
        proof {
            assert(has_suffix(t, suf@));
            assert(strip_all_suffix(t, suf@) == strip_all_suffix(
                t.take(t.len() - suf@.len()),
                suf@,
            ));
            assert(t.take(t.len() - suf@.len()) =~= chars@.take(end - suf@.len()));
        }
        end = end - suf.len();
    }
}

/// Reads a wallet file name back into its parts.  A name without the
/// wallet markers is reported as an ordinary file.  The timestamp is
/// taken from the name only where chrono accepts it, and is the
/// current time otherwise.
pub fn parse_filename_for_wallet_info(filename: &str) -> (r: FilenameParseResult)
    ensures
        r.original_filename@ == filename@,
        r.is_wallet_file == filename_is_wallet(filename@),
        r.is_wallet_file <==> r.wallet_info is Some,
        r.wallet_info matches Some(info) ==> {
            &&& info.label@ == wallet_label_of(filename@)
            &&& wallet_type_label(info.wallet_type) == wallet_type_str_of(filename@)
            &&& info.seed_phrase_word_count == wallet_count_of(filename@)
            &&& (info.file_path matches Some(p) && p@ == filename@)
            &&& compact_ts_valid(wallet_ts_of(filename@)) ==> info.created_at@
                == wallet_ts_of(filename@)
        },
{
    let chars = str_chars(filename);
    proof {
        assert(chars@.subrange(0, chars@.len() as int) =~= chars@);
    }
    let bin_suffix = str_chars(".bin");
    let txt_suffix = str_chars(".txt");
    proof {
        reveal_strlit(".bin");
        reveal_strlit(".txt");
        assert(".bin"@.len() == 4 && ".txt"@.len() == 4);
    }
    let end = if chars_have_suffix(&chars, 0, chars.len(), &bin_suffix) {
        chars.len() - 4
    } else if chars_have_suffix(&chars, 0, chars.len(), &txt_suffix) {
        chars.len() - 4
    } else {
        chars.len()
    };
    let ghost stripped = strip_wallet_ext(filename@);
    proof {
        assert(chars@.subrange(0, end as int) =~= stripped);
    }
    let marker = str_chars("_BTC_");
    if !chars_contain(&chars, 0, end, &marker) {
        return FilenameParseResult {
            is_wallet_file: false,
            wallet_info: None,
            original_filename: filename.to_owned(),
        };
    }
    let stripped_str = chars_to_string(&chars, 0, end);
    let schars = str_chars(stripped_str.as_str());
    let parts = split_on_char(&schars, '_');
    let ghost ps = wallet_parts(filename@);
    proof {
        assert(ps == parts@.map_values(|p: String| p@));
    }
    if parts.len() < 4 {
        return FilenameParseResult {
            is_wallet_file: false,
            wallet_info: None,
            original_filename: filename.to_owned(),
        };
    }
    // Locate the first part reading `BTC`.
    let n = parts.len();
    let mut bp = n;
    let mut i: usize = 0;
    while i < n && bp == n
        invariant
            i <= n,
            bp <= n,
            n == parts@.len(),
            ps == parts@.map_values(|p: String| p@),
            bp == n ==> first_btc(ps, 0) == first_btc(ps, i as int),
            bp < n ==> bp == first_btc(ps, 0),
        decreases n - i,
    {
        if str_eq(parts[i].as_str(), "BTC") {
            proof {
                assert(ps[i as int] == parts@[i as int]@);
                assert(first_btc(ps, i as int) == i);
            }
            bp = i;
        } else {
            proof {
                assert(first_btc(ps, i as int) == first_btc(ps, i as int + 1));
            }
        }
        i = i + 1;
    }
    proof {
        if bp == n {
            assert(i == n);
            assert(first_btc(ps, n as int) == n);
        }
        assert(bp == first_btc(ps, 0));
    }
    let ghost gbp = first_btc(ps, 0);
    if !(bp > 0 && bp < n - 1) {
        return FilenameParseResult {
            is_wallet_file: false,
            wallet_info: None,
            original_filename: filename.to_owned(),
        };
    }
    // The word-count suffix on the last part before `BTC`.
    let last_before = &parts[bp - 1];
    let lchars = str_chars(last_before.as_str());
    proof {
        assert(ps.take(gbp).last() == lchars@);
        assert(lchars@.subrange(0, lchars@.len() as int) =~= lchars@);
    }
    let words_suffix = str_chars("words");
    let cn_suffix = str_chars("\u{8bcd}");
    proof {
        reveal_strlit("words");
        reveal_strlit("\u{8bcd}");
        assert("words"@.len() == 5 && "\u{8bcd}"@.len() == 1);
    }
    let mut count: Option<usize> = None;
    let mut suffixed = false;
    let mut stripped_len = lchars.len();
    if chars_have_suffix(&lchars, 0, lchars.len(), &words_suffix) {
        suffixed = true;
        stripped_len = strip_suffix_repeatedly(&lchars, &words_suffix);
    } else if chars_have_suffix(&lchars, 0, lchars.len(), &cn_suffix) {
        suffixed = true;
        stripped_len = strip_suffix_repeatedly(&lchars, &cn_suffix);
    }
    if suffixed {
        proof {
            assert(lchars@.subrange(0, stripped_len as int) == lchars@.take(stripped_len as int));
        }
        match crate::numbers::parse_u64_dec(&lchars, 0, stripped_len) {
            Some(v) => {
                if v <= usize::MAX as u64 {
                    count = Some(v as usize);
                }
            },
            None => {
            },
        }
    }
    proof {
        match count {
            Some(c) => {
                assert(wallet_count_of(filename@) == Some(c));
            },
            None => {
                assert(wallet_count_of(filename@) is None);
            },
        }
    }
    // The label and the type text.
    let base_end = match count {
        Some(_) => bp - 1,
        None => bp,
    };
    proof {
        if count is Some {
            assert(ps.take(gbp).drop_last() =~= ps.take(gbp - 1));
        }
        assert(wallet_base_of(filename@) =~= ps.take(base_end as int));
    }
    if base_end < 2 {
        return FilenameParseResult {
            is_wallet_file: false,
            wallet_info: None,
            original_filename: filename.to_owned(),
        };
    }
    let label = parts[0].clone();
    let mut base: Vec<String> = Vec::new();
    let mut k: usize = 0;
    while k < base_end
        invariant
            k <= base_end <= parts@.len(),
            base@ == parts@.take(base_end as int).take(k as int),
        decreases base_end - k,
    {
        let ghost prevb = base@;
        base.push(parts[k].clone());
        proof {
            assert(parts@.take(base_end as int).take(k as int + 1) =~= prevb.push(
                parts@[k as int],
            ));
        }
        k = k + 1;
    }
    proof {
        assert(base@ =~= parts@.take(base_end as int));
        assert(base@.map_values(|p: String| p@) =~= ps.take(base_end as int));
        assert(base@.map_values(|p: String| p@).skip(1) =~= wallet_base_of(filename@).skip(1));
    }
    let type_str = crate::strutil::join_with_sep(&base, 1, '_');
    proof {
        assert(type_str@ == wallet_type_str_of(filename@));
        assert(label@ == ps.take(base_end as int)[0]);
        assert(label@ == wallet_label_of(filename@));
    }
    if label.as_str().is_empty() || type_str.as_str().is_empty() {
        return FilenameParseResult {
            is_wallet_file: false,
            wallet_info: None,
            original_filename: filename.to_owned(),
        };
    }
    // The timestamp after `BTC`: kept only where chrono reads it.
    let ts = &parts[bp + 1];
    proof {
        assert(ps[gbp + 1] == parts@[bp + 1]@);
    }
    let ts_ok = is_compact_timestamp(ts.as_str());
    let created_at = if ts_ok {
        ts.clone()
    } else {
        now_compact_timestamp()
    };
    let wallet_type = WalletType::from_string(type_str.as_str());
    let info = WalletInfo {
        label,
        wallet_type,
        created_at,
        file_path: Some(filename.to_owned()),
        seed_phrase_word_count: count,
    };
    proof {
        assert(filename_is_wallet(filename@));
    }
    FilenameParseResult {
        is_wallet_file: true,
        wallet_info: Some(info),
        original_filename: filename.to_owned(),
    }
}

} // verus!
