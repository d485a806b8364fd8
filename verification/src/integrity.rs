//! The integrity metadata embedded in the advanced container: a SHA-256
//! digest of the ciphertext, the declared ciphertext size, a creation
//! timestamp and the two method labels, carried as one compact JSON
//! record.
//!
//! The record's wire form is fixed: the five fields in this order, no
//! spaces, strings without escapes.  `encode_metadata` writes exactly
//! that form and `parse_metadata` accepts exactly that form, so that a
//! parsed record is always the one that was written.

use vstd::prelude::*;

use crate::numbers::all_dec_digits;
use crate::numbers::dec_of;
use crate::numbers::dec_val;
use crate::numbers::dec_digit_val;
use crate::numbers::is_dec_digit;
use crate::numbers::lemma_dec_of_val;
use crate::numbers::parse_u64_dec;
use crate::numbers::u64_to_dec;
use crate::strutil::chars_have_prefix;
use crate::strutil::chars_to_string;
use crate::strutil::str_chars;

verus! {

/// The integrity metadata of one advanced container.
#[derive(Debug, Clone)]
pub struct FileIntegrityInfo {
    /// Lowercase hex SHA-256 digest of the ciphertext bytes.
    pub sha256_hash: String,
    /// Length in bytes of the ciphertext (tag included).
    pub file_size: u64,
    /// Creation timestamp, an RFC 3339 text.
    pub created_at: String,
    /// The cipher's label, `"AES-256-GCM"`.
    pub encryption_method: String,
    /// The key-derivation label, `"<tag>-<iterations>"`.
    pub key_derivation: String,
}

/// The mathematical view of a metadata record.
pub ghost struct IntegrityInfoView {
    pub sha256_hash: Seq<char>,
    pub file_size: u64,
    pub created_at: Seq<char>,
    pub encryption_method: Seq<char>,
    pub key_derivation: Seq<char>,
}

impl View for FileIntegrityInfo {
    type V = IntegrityInfoView;

    open spec fn view(&self) -> IntegrityInfoView {
        IntegrityInfoView {
            sha256_hash: self.sha256_hash@,
            file_size: self.file_size,
            created_at: self.created_at@,
            encryption_method: self.encryption_method@,
            key_derivation: self.key_derivation@,
        }
    }
}

/// A character that may stand inside a JSON string without escaping.
pub open spec fn json_plain_char(c: char) -> bool {
    (c as u32) >= 0x20 && c != '"' && c != '\\'
}

/// A text of unescaped JSON string characters.
pub open spec fn json_plain(s: Seq<char>) -> bool {
    forall|i: int| 0 <= i < s.len() ==> json_plain_char(#[trigger] s[i])
}

/// A well-formed record: every string field can stand unescaped.
pub open spec fn info_wf(v: IntegrityInfoView) -> bool {
    &&& json_plain(v.sha256_hash)
    &&& json_plain(v.created_at)
    &&& json_plain(v.encryption_method)
    &&& json_plain(v.key_derivation)
}

/// The record's opening text, up to the digest field.
pub open spec fn lit_hash() -> Seq<char> {
    "{\"sha256_hash\":\""@
}

/// The text between the digest and the size fields.
pub open spec fn lit_size() -> Seq<char> {
    "\",\"file_size\":"@
}

/// The text between the size and the timestamp fields.
pub open spec fn lit_created() -> Seq<char> {
    ",\"created_at\":\""@
}

/// The text between the timestamp and the cipher-label fields.
pub open spec fn lit_enc() -> Seq<char> {
    "\",\"encryption_method\":\""@
}

/// The text between the cipher-label and the derivation-label fields.
pub open spec fn lit_kd() -> Seq<char> {
    "\",\"key_derivation\":\""@
}

/// The record's closing text.
pub open spec fn lit_end() -> Seq<char> {
    "\"}"@
}

/// The record's one wire form.
pub open spec fn metadata_json_of(v: IntegrityInfoView) -> Seq<char> {
    lit_hash() + v.sha256_hash + lit_size() + dec_of(v.file_size as nat) + lit_created()
        + v.created_at + lit_enc() + v.encryption_method + lit_kd() + v.key_derivation
        + lit_end()
}

/// Writes the record in its wire form.
pub fn encode_metadata(info: &FileIntegrityInfo) -> (r: String)
    ensures
        r@ == metadata_json_of(info@),
{
    let mut r = String::new();
    r.append("{\"sha256_hash\":\"");
    r.append(info.sha256_hash.as_str());
    r.append("\",\"file_size\":");
    let d = u64_to_dec(info.file_size);
    r.append(d.as_str());
    r.append(",\"created_at\":\"");
    r.append(info.created_at.as_str());
    r.append("\",\"encryption_method\":\"");
    r.append(info.encryption_method.as_str());
    r.append("\",\"key_derivation\":\"");
    r.append(info.key_derivation.as_str());
    r.append("\"}");
    r
}


/// Relies on chrono's `Utc::now` and `to_rfc3339_opts`: the current
/// time as RFC 3339 text with microsecond precision and a `Z` suffix.
/// The text is ASCII digits and punctuation, short, and free of
/// characters that would need JSON escaping.
#[verifier::external_body]
pub(crate) fn now_rfc3339() -> (r: String)
    ensures
        json_plain(r@),
        r@.len() <= 40,
{
    chrono::Utc::now().to_rfc3339_opts(chrono::SecondsFormat::Micros, true)
}

// ---------------------------------------------------------------------------
// Parsing helpers.
// ---------------------------------------------------------------------------
/// Unescaped-JSON-character test.
fn is_json_plain_char(c: char) -> (r: bool)
    ensures
        r == json_plain_char(c),
{
    (c as u32) >= 0x20 && c != '"' && c != '\\'
}

/// The exact literal `lit` stands at `pos`.
pub open spec fn lit_at(cs: Seq<char>, pos: int, lit: Seq<char>) -> bool {
    0 <= pos && pos + lit.len() <= cs.len() && cs.subrange(pos, pos + lit.len()) == lit
}

/// A quote scan from `start` may stop at `e`: plain characters up to a
/// quote.
pub open spec fn scan_ok(cs: Seq<char>, start: int, e: int) -> bool {
    start <= e < cs.len() && cs[e] == '"' && (forall|j: int|
        start <= j < e ==> json_plain_char(#[trigger] cs[j]))
}

/// Some position completes a quote scan from `start`.
pub open spec fn scan_some(cs: Seq<char>, start: int) -> bool {
    exists|e: int| #[trigger] scan_ok(cs, start, e)
}

/// A digit scan from `start` stops at `e`.
pub open spec fn digits_ok(cs: Seq<char>, start: int, e: int) -> bool {
    &&& start <= e <= cs.len()
    &&& (forall|j: int| start <= j < e ==> is_dec_digit(#[trigger] cs[j]))
    &&& (e < cs.len() ==> !is_dec_digit(cs[e]))
}

/// Whether every character of a string may stand unescaped in a JSON
/// string.
pub fn str_is_json_plain(s: &str) -> (r: bool)
    ensures
        r == json_plain(s@),
{
    let chars = crate::strutil::str_chars(s);
    let n = chars.len();
    let mut i: usize = 0;
    while i < n
        invariant
            i <= n,
            n == chars@.len(),
            chars@ == s@,
            forall|j: int| 0 <= j < i ==> json_plain_char(#[trigger] chars@[j]),
        decreases n - i,
    {
        if !is_json_plain_char(chars[i]) {
            return false;
        }
        i = i + 1;
    }
    true
}

/// Lowercase hex text stands unescaped in a JSON string.
pub proof fn lemma_hex_json_plain(s: Seq<char>)
    requires
        forall|i: int| 0 <= i < s.len() ==> crate::digest::is_lower_hex_char(#[trigger] s[i]),
    ensures
        json_plain(s),
{
    assert forall|i: int| 0 <= i < s.len() implies json_plain_char(#[trigger] s[i]) by {
        let c = s[i];
        assert(crate::digest::is_lower_hex_char(c));
        assert(c != '"') by {
            if c == '"' {
                assert((c as u32) == 0x22);
            }
        }
        assert(c != '\\') by {
            if c == '\\' {
                assert((c as u32) == 0x5C);
            }
        }
    }
}

/// Decimal digits stand unescaped in a JSON string.
pub proof fn lemma_digits_json_plain(s: Seq<char>)
    requires
        all_dec_digits(s),
    ensures
        json_plain(s),
{
    assert forall|i: int| 0 <= i < s.len() implies json_plain_char(#[trigger] s[i]) by {
        let c = s[i];
        assert(is_dec_digit(c));
        assert(c == '0' || c == '1' || c == '2' || c == '3' || c == '4' || c == '5' || c == '6'
            || c == '7' || c == '8' || c == '9');
    }
}

/// Consumes the exact literal at `pos`.
fn expect_lit(chars: &Vec<char>, pos: usize, lit: &str) -> (r: Option<usize>)
    requires
        pos <= chars@.len(),
    ensures
        r matches Some(p) ==> p == pos + lit@.len() && lit_at(chars@, pos as int, lit@),
        r is None ==> !lit_at(chars@, pos as int, lit@),
{
    let lv = str_chars(lit);
    if chars.len() - pos < lv.len() {
        return None;
    }
    let hit = chars_have_prefix(chars, pos, chars.len(), &lv);
    proof {
        let tail = chars@.subrange(pos as int, chars@.len() as int);
        assert(tail.subrange(0, lv@.len() as int) =~= chars@.subrange(
            pos as int,
            pos + lv@.len(),
        ));
    }
    if hit {
        Some(pos + lv.len())
    } else {
        None
    }
}

/// Scans an unescaped string field: every character up to the next
/// quote must be a plain JSON string character.
fn scan_field(chars: &Vec<char>, pos: usize) -> (r: Option<usize>)
    requires
        pos <= chars@.len(),
    ensures
        r matches Some(e) ==> scan_ok(chars@, pos as int, e as int),
        r is None ==> !scan_some(chars@, pos as int),
{
    let n = chars.len();
    let mut i = pos;
    while i < n
        invariant
            pos <= i <= n,
            n == chars@.len(),
            forall|j: int| pos <= j < i ==> json_plain_char(#[trigger] chars@[j]),
        decreases n - i,
    {
        let c = chars[i];
        if c == '"' {
            return Some(i);
        }
        if !is_json_plain_char(c) {
            proof {
                assert forall|e: int| !(#[trigger] scan_ok(chars@, pos as int, e)) by {
                    if scan_ok(chars@, pos as int, e) {
                        if e <= i {
                            assert(chars@[i as int] != '"');
                        } else {
                            assert(!json_plain_char(chars@[i as int]));
                        }
                    }
                }
            }
            return None;
        }
        i = i + 1;
    }
    proof {
        assert forall|e: int| !(#[trigger] scan_ok(chars@, pos as int, e)) by {
            if scan_ok(chars@, pos as int, e) {
                assert(json_plain_char(chars@[e]));
            }
        }
    }
    None
}

/// Scans a run of decimal digits.
fn scan_digits(chars: &Vec<char>, pos: usize) -> (r: usize)
    requires
        pos <= chars@.len(),
    ensures
        digits_ok(chars@, pos as int, r as int),
        pos <= r,
{
    let n = chars.len();
    let mut i = pos;
    while i < n
        invariant
            pos <= i <= n,
            n == chars@.len(),
            forall|j: int| pos <= j < i ==> is_dec_digit(#[trigger] chars@[j]),
        decreases n - i,
    {
        let c = chars[i];
        let u = c as u32;
        proof {
            vstd::utf8::char_u32_cast(c, u);
        }
        if !(48 <= u && u <= 57) {
            proof {
                assert(!is_dec_digit(chars@[i as int]));
            }
            return i;
        }
        proof {
            assert(c == '0' || c == '1' || c == '2' || c == '3' || c == '4' || c == '5' || c
                == '6' || c == '7' || c == '8' || c == '9');
        }
        i = i + 1;
    }
    i
}

// ---------------------------------------------------------------------------
// Canonical decimal notation.
// ---------------------------------------------------------------------------
/// A non-empty digit run without a leading zero is worth at least one.
proof fn lemma_dec_val_pos(s: Seq<char>)
    requires
        s.len() >= 1,
        all_dec_digits(s),
        s[0] != '0',
    ensures
        dec_val(s) >= 1,
    decreases s.len(),
{
    if s.len() == 1 {
        assert(is_dec_digit(s[0]));
        assert(dec_val(s.drop_last()) == 0);
        assert(dec_digit_val(s[0]) >= 1);
    } else {
        lemma_dec_val_pos(s.drop_last());
        assert(dec_val(s) >= dec_val(s.drop_last()) * 10) by (nonlinear_arith)
            requires
                dec_val(s) == dec_val(s.drop_last()) * 10 + (if is_dec_digit(s.last()) {
                    dec_digit_val(s.last()) as nat
                } else {
                    0
                }),
        ;
        assert(dec_val(s.drop_last()) * 10 >= 1) by (nonlinear_arith)
            requires
                dec_val(s.drop_last()) >= 1,
        ;
    }
}

/// A non-empty digit run without a leading zero is the canonical
/// notation of its own value.
pub proof fn lemma_dec_canonical(s: Seq<char>)
    requires
        s.len() >= 1,
        all_dec_digits(s),
        s.len() > 1 ==> s[0] != '0',
    ensures
        dec_of(dec_val(s)) == s,
    decreases s.len(),
{
    if s.len() == 1 {
        assert(s.drop_last() =~= Seq::<char>::empty());
        assert(s.last() == s[0] && is_dec_digit(s[0]));
        assert(dec_val(Seq::<char>::empty()) == 0);
        assert(dec_val(s) == 0 * 10 + dec_digit_val(s[0]));
        assert(dec_val(s) < 10);
        assert(dec_of(dec_val(s)) == seq![crate::numbers::dec_digit(dec_digit_val(s[0]))]);
        assert(crate::numbers::dec_digit(dec_digit_val(s[0])) == s[0]);
        assert(dec_of(dec_val(s)) =~= s);
    } else {
        let t = s.drop_last();
        let d = dec_digit_val(s.last()) as nat;
        assert(all_dec_digits(t));
        lemma_dec_canonical(t);
        lemma_dec_val_pos(t);
        assert(dec_val(s) == dec_val(t) * 10 + d);
        assert(dec_val(s) >= 10 && dec_val(s) / 10 == dec_val(t) && dec_val(s) % 10 == d)
            by (nonlinear_arith)
            requires
                dec_val(s) == dec_val(t) * 10 + d,
                dec_val(t) >= 1,
                d < 10,
        ;
        assert(dec_of(dec_val(s)) == dec_of(dec_val(t)) + seq![
            crate::numbers::dec_digit((dec_val(s) % 10) as int),
        ]);
        assert(crate::numbers::dec_digit(d as int) == s.last());
        assert(dec_of(dec_val(s)) =~= s);
    }
}


// ---------------------------------------------------------------------------
// The wire form's layout.
// ---------------------------------------------------------------------------
/// Where each character of `metadata_json_of(w)` stands inside `chars`:
/// the literal pieces and the five fields, at their cumulative offsets.
pub open spec fn layout_ok(chars: Seq<char>, w: IntegrityInfoView) -> bool {
    let dg = dec_of(w.file_size as nat);
    let o0 = lit_hash().len() as int;
    let o1 = o0 + w.sha256_hash.len();
    let o2 = o1 + lit_size().len();
    let o3 = o2 + dg.len();
    let o4 = o3 + lit_created().len();
    let o5 = o4 + w.created_at.len();
    let o6 = o5 + lit_enc().len();
    let o7 = o6 + w.encryption_method.len();
    let o8 = o7 + lit_kd().len();
    let o9 = o8 + w.key_derivation.len();
    &&& chars.len() == o9 + lit_end().len()
    &&& (forall|j: int| 0 <= j < o0 ==> #[trigger] chars[j] == lit_hash()[j])
    &&& (forall|j: int|
        o0 <= j < o1 ==> json_plain_char(#[trigger] chars[j]) && chars[j] == w.sha256_hash[j
            - o0])
    &&& (forall|j: int| o1 <= j < o2 ==> #[trigger] chars[j] == lit_size()[j - o1])
    &&& (forall|j: int|
        o2 <= j < o3 ==> is_dec_digit(#[trigger] chars[j]) && chars[j] == dg[j - o2])
    &&& (forall|j: int| o3 <= j < o4 ==> #[trigger] chars[j] == lit_created()[j - o3])
    &&& (forall|j: int|
        o4 <= j < o5 ==> json_plain_char(#[trigger] chars[j]) && chars[j] == w.created_at[j
            - o4])
    &&& (forall|j: int| o5 <= j < o6 ==> #[trigger] chars[j] == lit_enc()[j - o5])
    &&& (forall|j: int|
        o6 <= j < o7 ==> json_plain_char(#[trigger] chars[j]) && chars[j]
            == w.encryption_method[j - o6])
    &&& (forall|j: int| o7 <= j < o8 ==> #[trigger] chars[j] == lit_kd()[j - o7])
    &&& (forall|j: int|
        o8 <= j < o9 ==> json_plain_char(#[trigger] chars[j]) && chars[j]
            == w.key_derivation[j - o8])
    &&& (forall|j: int| o9 <= j < chars.len() ==> #[trigger] chars[j] == lit_end()[j - o9])
    &&& chars[o1] == '"'
    &&& chars[o3] == ','
    &&& chars[o5] == '"'
    &&& chars[o7] == '"'
    &&& chars[o9] == '"'
    &&& dg.len() >= 1
    &&& (dg.len() > 1 ==> dg[0] != '0')
    &&& dec_val(dg) == w.file_size
}

/// Reveals the wire form's literal pieces.
pub proof fn reveal_lits()
    ensures
        lit_hash().len() == 16,
        lit_size().len() == 14,
        lit_created().len() == 15,
        lit_enc().len() == 23,
        lit_kd().len() == 20,
        lit_end().len() == 2,
        lit_size()[0] == '"',
        lit_created()[0] == ',',
        lit_enc()[0] == '"',
        lit_kd()[0] == '"',
        lit_end()[0] == '"',
{
    reveal_strlit("{\"sha256_hash\":\"");
    reveal_strlit("\",\"file_size\":");
    reveal_strlit(",\"created_at\":\"");
    reveal_strlit("\",\"encryption_method\":\"");
    reveal_strlit("\",\"key_derivation\":\"");
    reveal_strlit("\"}");
}

/// The wire form of a well-formed record satisfies the layout.
proof fn lemma_layout(chars: Seq<char>, w: IntegrityInfoView)
    requires
        chars == metadata_json_of(w),
        info_wf(w),
    ensures
        layout_ok(chars, w),
{
    reveal_lits();
    lemma_dec_of_val(w.file_size as nat);
    crate::numbers::lemma_dec_of_leading(w.file_size as nat);
    let dg = dec_of(w.file_size as nat);
    let o0 = lit_hash().len() as int;
    let o1 = o0 + w.sha256_hash.len();
    let o2 = o1 + lit_size().len();
    let o3 = o2 + dg.len();
    let o4 = o3 + lit_created().len();
    let o5 = o4 + w.created_at.len();
    let o6 = o5 + lit_enc().len();
    let o7 = o6 + w.encryption_method.len();
    let o8 = o7 + lit_kd().len();
    let o9 = o8 + w.key_derivation.len();
    if dg.len() > 1 {
        if w.file_size == 0 {
            assert(dec_of(0) == seq![crate::numbers::dec_digit(0)]);
        }
    }
    assert(chars[o1] == lit_size()[0]);
    assert(chars[o3] == lit_created()[0]);
    assert(chars[o5] == lit_enc()[0]);
    assert(chars[o7] == lit_kd()[0]);
    assert(chars[o9] == lit_end()[0]);
}

/// A quote scan inside the layout stops exactly at the field's end.
proof fn lemma_scan_quote_unique(chars: Seq<char>, start: int, flen: int, e: int)
    requires
        0 <= start,
        0 <= flen,
        start + flen < chars.len(),
        chars[start + flen] == '"',
        forall|j: int| start <= j < start + flen ==> json_plain_char(#[trigger] chars[j]),
        start <= e < chars.len(),
        chars[e] == '"',
        forall|j: int| start <= j < e ==> json_plain_char(#[trigger] chars[j]),
    ensures
        e == start + flen,
{
    if e < start + flen {
        assert(json_plain_char(chars[e]));
    } else if e > start + flen {
        assert(json_plain_char(chars[start + flen]));
    }
}

/// A digit scan inside the layout stops exactly at the digits' end.
proof fn lemma_scan_digits_unique(chars: Seq<char>, start: int, dlen: int, e: int)
    requires
        0 <= start,
        0 <= dlen,
        start + dlen < chars.len(),
        !is_dec_digit(chars[start + dlen]),
        forall|j: int| start <= j < start + dlen ==> is_dec_digit(#[trigger] chars[j]),
        start <= e <= chars.len(),
        forall|j: int| start <= j < e ==> is_dec_digit(#[trigger] chars[j]),
        e < chars.len() ==> !is_dec_digit(chars[e]),
    ensures
        e == start + dlen,
{
    if e < start + dlen {
        assert(is_dec_digit(chars[e]));
    } else if e > start + dlen {
        assert(is_dec_digit(chars[start + dlen]));
    }
}

// ---------------------------------------------------------------------------
// The offsets of a record's wire form.
// ---------------------------------------------------------------------------
pub open spec fn o_hash(w: IntegrityInfoView) -> int {
    lit_hash().len() as int
}

pub open spec fn o_hash_end(w: IntegrityInfoView) -> int {
    o_hash(w) + w.sha256_hash.len()
}

pub open spec fn o_size(w: IntegrityInfoView) -> int {
    o_hash_end(w) + lit_size().len()
}

pub open spec fn o_size_end(w: IntegrityInfoView) -> int {
    o_size(w) + dec_of(w.file_size as nat).len()
}

pub open spec fn o_created(w: IntegrityInfoView) -> int {
    o_size_end(w) + lit_created().len()
}

pub open spec fn o_created_end(w: IntegrityInfoView) -> int {
    o_created(w) + w.created_at.len()
}

pub open spec fn o_enc(w: IntegrityInfoView) -> int {
    o_created_end(w) + lit_enc().len()
}

pub open spec fn o_enc_end(w: IntegrityInfoView) -> int {
    o_enc(w) + w.encryption_method.len()
}

pub open spec fn o_kd(w: IntegrityInfoView) -> int {
    o_enc_end(w) + lit_kd().len()
}

pub open spec fn o_kd_end(w: IntegrityInfoView) -> int {
    o_kd(w) + w.key_derivation.len()
}

/// No well-formed record has this text as its wire form.
pub open spec fn no_witness(cs: Seq<char>) -> bool {
    forall|w: IntegrityInfoView| !(info_wf(w) && cs == #[trigger] metadata_json_of(w))
}

// ---------------------------------------------------------------------------
// Alignment: the scans stop at the record's own offsets.
// ---------------------------------------------------------------------------
proof fn align_h(cs: Seq<char>, w: IntegrityInfoView, h_end: int)
    requires
        layout_ok(cs, w),
        scan_ok(cs, o_hash(w), h_end),
    ensures
        h_end == o_hash_end(w),
{
    lemma_scan_quote_unique(cs, o_hash(w), w.sha256_hash.len() as int, h_end);
}

proof fn align_d(cs: Seq<char>, w: IntegrityInfoView, d_end: int)
    requires
        layout_ok(cs, w),
        digits_ok(cs, o_size(w), d_end),
        o_size(w) <= d_end,
    ensures
        d_end == o_size_end(w),
{
    lemma_scan_digits_unique(cs, o_size(w), dec_of(w.file_size as nat).len() as int, d_end);
}

proof fn align_c(cs: Seq<char>, w: IntegrityInfoView, c_end: int)
    requires
        layout_ok(cs, w),
        scan_ok(cs, o_created(w), c_end),
    ensures
        c_end == o_created_end(w),
{
    lemma_scan_quote_unique(cs, o_created(w), w.created_at.len() as int, c_end);
}

proof fn align_e(cs: Seq<char>, w: IntegrityInfoView, e_end: int)
    requires
        layout_ok(cs, w),
        scan_ok(cs, o_enc(w), e_end),
    ensures
        e_end == o_enc_end(w),
{
    lemma_scan_quote_unique(cs, o_enc(w), w.encryption_method.len() as int, e_end);
}

proof fn align_k(cs: Seq<char>, w: IntegrityInfoView, k_end: int)
    requires
        layout_ok(cs, w),
        scan_ok(cs, o_kd(w), k_end),
    ensures
        k_end == o_kd_end(w),
{
    lemma_scan_quote_unique(cs, o_kd(w), w.key_derivation.len() as int, k_end);
}

// ---------------------------------------------------------------------------
// The failure paths: each step the parser gives up on shows that no
// well-formed record has the input as its wire form.
// ---------------------------------------------------------------------------
proof fn nw_lit_hash(cs: Seq<char>)
    requires
        !lit_at(cs, 0, lit_hash()),
    ensures
        no_witness(cs),
{
    assert forall|w: IntegrityInfoView| !(info_wf(w) && cs == #[trigger] metadata_json_of(w)) by {
        if info_wf(w) && cs == metadata_json_of(w) {
            lemma_layout(cs, w);
            reveal_lits();
            assert(cs.subrange(0, o_hash(w)) =~= lit_hash());
        }
    }
}

proof fn nw_scan_hash(cs: Seq<char>)
    requires
        !scan_some(cs, lit_hash().len() as int),
    ensures
        no_witness(cs),
{
    assert forall|w: IntegrityInfoView| !(info_wf(w) && cs == #[trigger] metadata_json_of(w)) by {
        if info_wf(w) && cs == metadata_json_of(w) {
            lemma_layout(cs, w);
            reveal_lits();
            assert(scan_ok(cs, o_hash(w), o_hash_end(w)));
        }
    }
}

proof fn nw_lit_size(cs: Seq<char>, h_end: int)
    requires
        scan_ok(cs, lit_hash().len() as int, h_end),
        !lit_at(cs, h_end, lit_size()),
    ensures
        no_witness(cs),
{
    assert forall|w: IntegrityInfoView| !(info_wf(w) && cs == #[trigger] metadata_json_of(w)) by {
        if info_wf(w) && cs == metadata_json_of(w) {
            lemma_layout(cs, w);
            reveal_lits();
            align_h(cs, w, h_end);
            assert(cs.subrange(o_hash_end(w), o_size(w)) =~= lit_size());
        }
    }
}

proof fn nw_digits(cs: Seq<char>, h_end: int, d_end: int, fits: bool)
    requires
        scan_ok(cs, lit_hash().len() as int, h_end),
        lit_at(cs, h_end, lit_size()),
        digits_ok(cs, h_end + lit_size().len(), d_end),
        h_end + lit_size().len() <= d_end,
        ({
            let start = h_end + lit_size().len();
            ||| d_end == start
            ||| (d_end - start > 1 && cs[start] == '0')
            ||| !fits
        }),
        fits <==> (h_end + lit_size().len() < d_end && dec_val(
            cs.subrange(h_end + lit_size().len(), d_end),
        ) <= u64::MAX),
    ensures
        no_witness(cs),
{
    assert forall|w: IntegrityInfoView| !(info_wf(w) && cs == #[trigger] metadata_json_of(w)) by {
        if info_wf(w) && cs == metadata_json_of(w) {
            lemma_layout(cs, w);
            reveal_lits();
            align_h(cs, w, h_end);
            align_d(cs, w, d_end);
            let dg = dec_of(w.file_size as nat);
            assert(cs.subrange(o_size(w), o_size_end(w)) =~= dg);
            assert(dg.len() >= 1);
            assert(cs[o_size(w)] == dg[0]);
            lemma_dec_of_val(w.file_size as nat);
        }
    }
}

proof fn nw_lit_created(cs: Seq<char>, h_end: int, d_end: int)
    requires
        scan_ok(cs, lit_hash().len() as int, h_end),
        digits_ok(cs, h_end + lit_size().len(), d_end),
        h_end + lit_size().len() <= d_end,
        !lit_at(cs, d_end, lit_created()),
    ensures
        no_witness(cs),
{
    assert forall|w: IntegrityInfoView| !(info_wf(w) && cs == #[trigger] metadata_json_of(w)) by {
        if info_wf(w) && cs == metadata_json_of(w) {
            lemma_layout(cs, w);
            reveal_lits();
            align_h(cs, w, h_end);
            align_d(cs, w, d_end);
            assert(cs.subrange(o_size_end(w), o_created(w)) =~= lit_created());
        }
    }
}

proof fn nw_scan_created(cs: Seq<char>, h_end: int, d_end: int)
    requires
        scan_ok(cs, lit_hash().len() as int, h_end),
        digits_ok(cs, h_end + lit_size().len(), d_end),
        h_end + lit_size().len() <= d_end,
        !scan_some(cs, d_end + lit_created().len()),
    ensures
        no_witness(cs),
{
    assert forall|w: IntegrityInfoView| !(info_wf(w) && cs == #[trigger] metadata_json_of(w)) by {
        if info_wf(w) && cs == metadata_json_of(w) {
            lemma_layout(cs, w);
            reveal_lits();
            align_h(cs, w, h_end);
            align_d(cs, w, d_end);
            assert(scan_ok(cs, o_created(w), o_created_end(w)));
        }
    }
}

proof fn nw_lit_enc(cs: Seq<char>, h_end: int, d_end: int, c_end: int)
    requires
        scan_ok(cs, lit_hash().len() as int, h_end),
        digits_ok(cs, h_end + lit_size().len(), d_end),
        h_end + lit_size().len() <= d_end,
        scan_ok(cs, d_end + lit_created().len(), c_end),
        !lit_at(cs, c_end, lit_enc()),
    ensures
        no_witness(cs),
{
    assert forall|w: IntegrityInfoView| !(info_wf(w) && cs == #[trigger] metadata_json_of(w)) by {
        if info_wf(w) && cs == metadata_json_of(w) {
            lemma_layout(cs, w);
            reveal_lits();
            align_h(cs, w, h_end);
            align_d(cs, w, d_end);
            align_c(cs, w, c_end);
            assert(cs.subrange(o_created_end(w), o_enc(w)) =~= lit_enc());
        }
    }
}

proof fn nw_scan_enc(cs: Seq<char>, h_end: int, d_end: int, c_end: int)
    requires
        scan_ok(cs, lit_hash().len() as int, h_end),
        digits_ok(cs, h_end + lit_size().len(), d_end),
        h_end + lit_size().len() <= d_end,
        scan_ok(cs, d_end + lit_created().len(), c_end),
        !scan_some(cs, c_end + lit_enc().len()),
    ensures
        no_witness(cs),
{
    assert forall|w: IntegrityInfoView| !(info_wf(w) && cs == #[trigger] metadata_json_of(w)) by {
        if info_wf(w) && cs == metadata_json_of(w) {
            lemma_layout(cs, w);
            reveal_lits();
            align_h(cs, w, h_end);
            align_d(cs, w, d_end);
            align_c(cs, w, c_end);
            assert(scan_ok(cs, o_enc(w), o_enc_end(w)));
        }
    }
}

proof fn nw_lit_kd(cs: Seq<char>, h_end: int, d_end: int, c_end: int, e_end: int)
    requires
        scan_ok(cs, lit_hash().len() as int, h_end),
        digits_ok(cs, h_end + lit_size().len(), d_end),
        h_end + lit_size().len() <= d_end,
        scan_ok(cs, d_end + lit_created().len(), c_end),
        scan_ok(cs, c_end + lit_enc().len(), e_end),
        !lit_at(cs, e_end, lit_kd()),
    ensures
        no_witness(cs),
{
    assert forall|w: IntegrityInfoView| !(info_wf(w) && cs == #[trigger] metadata_json_of(w)) by {
        if info_wf(w) && cs == metadata_json_of(w) {
            lemma_layout(cs, w);
            reveal_lits();
            align_h(cs, w, h_end);
            align_d(cs, w, d_end);
            align_c(cs, w, c_end);
            align_e(cs, w, e_end);
            assert(cs.subrange(o_enc_end(w), o_kd(w)) =~= lit_kd());
        }
    }
}

proof fn nw_scan_kd(cs: Seq<char>, h_end: int, d_end: int, c_end: int, e_end: int)
    requires
        scan_ok(cs, lit_hash().len() as int, h_end),
        digits_ok(cs, h_end + lit_size().len(), d_end),
        h_end + lit_size().len() <= d_end,
        scan_ok(cs, d_end + lit_created().len(), c_end),
        scan_ok(cs, c_end + lit_enc().len(), e_end),
        !scan_some(cs, e_end + lit_kd().len()),
    ensures
        no_witness(cs),
{
    assert forall|w: IntegrityInfoView| !(info_wf(w) && cs == #[trigger] metadata_json_of(w)) by {
        if info_wf(w) && cs == metadata_json_of(w) {
            lemma_layout(cs, w);
            reveal_lits();
            align_h(cs, w, h_end);
            align_d(cs, w, d_end);
            align_c(cs, w, c_end);
            align_e(cs, w, e_end);
            assert(scan_ok(cs, o_kd(w), o_kd_end(w)));
        }
    }
}

proof fn nw_end(cs: Seq<char>, h_end: int, d_end: int, c_end: int, e_end: int, k_end: int)
    requires
        scan_ok(cs, lit_hash().len() as int, h_end),
        digits_ok(cs, h_end + lit_size().len(), d_end),
        h_end + lit_size().len() <= d_end,
        scan_ok(cs, d_end + lit_created().len(), c_end),
        scan_ok(cs, c_end + lit_enc().len(), e_end),
        scan_ok(cs, e_end + lit_kd().len(), k_end),
        !lit_at(cs, k_end, lit_end()) || k_end + lit_end().len() != cs.len(),
    ensures
        no_witness(cs),
{
    assert forall|w: IntegrityInfoView| !(info_wf(w) && cs == #[trigger] metadata_json_of(w)) by {
        if info_wf(w) && cs == metadata_json_of(w) {
            lemma_layout(cs, w);
            reveal_lits();
            align_h(cs, w, h_end);
            align_d(cs, w, d_end);
            align_c(cs, w, c_end);
            align_e(cs, w, e_end);
            align_k(cs, w, k_end);
            assert(cs.subrange(o_kd_end(w), cs.len() as int) =~= lit_end());
        }
    }
}

/// The success path's soundness: the scanned pieces reassemble the
/// input, which is the wire form of the parsed record.
proof fn parse_sound(
    cs: Seq<char>,
    h_end: int,
    d_end: int,
    c_end: int,
    e_end: int,
    k_end: int,
    v: IntegrityInfoView,
)
    requires
        lit_at(cs, 0, lit_hash()),
        scan_ok(cs, lit_hash().len() as int, h_end),
        lit_at(cs, h_end, lit_size()),
        digits_ok(cs, h_end + lit_size().len(), d_end),
        h_end + lit_size().len() < d_end,
        d_end - (h_end + lit_size().len()) > 1 ==> cs[h_end + lit_size().len()] != '0',
        lit_at(cs, d_end, lit_created()),
        scan_ok(cs, d_end + lit_created().len(), c_end),
        lit_at(cs, c_end, lit_enc()),
        scan_ok(cs, c_end + lit_enc().len(), e_end),
        lit_at(cs, e_end, lit_kd()),
        scan_ok(cs, e_end + lit_kd().len(), k_end),
        lit_at(cs, k_end, lit_end()),
        k_end + lit_end().len() == cs.len(),
        v.sha256_hash == cs.subrange(lit_hash().len() as int, h_end),
        v.file_size as nat == dec_val(cs.subrange(h_end + lit_size().len(), d_end)),
        v.created_at == cs.subrange(d_end + lit_created().len(), c_end),
        v.encryption_method == cs.subrange(c_end + lit_enc().len(), e_end),
        v.key_derivation == cs.subrange(e_end + lit_kd().len(), k_end),
    ensures
        cs == metadata_json_of(v),
        info_wf(v),
{
    let dsub = cs.subrange(h_end + lit_size().len(), d_end);
    lemma_dec_canonical(dsub);
    assert(dec_of(v.file_size as nat) == dsub);
    assert(cs =~= metadata_json_of(v));
}

/// The success path's determinism: whatever well-formed record the
/// input encodes is the parsed record.
proof fn parse_determined(
    cs: Seq<char>,
    h_end: int,
    d_end: int,
    c_end: int,
    e_end: int,
    k_end: int,
    v: IntegrityInfoView,
    w: IntegrityInfoView,
)
    requires
        info_wf(w),
        cs == metadata_json_of(w),
        scan_ok(cs, lit_hash().len() as int, h_end),
        digits_ok(cs, h_end + lit_size().len(), d_end),
        h_end + lit_size().len() <= d_end,
        scan_ok(cs, d_end + lit_created().len(), c_end),
        scan_ok(cs, c_end + lit_enc().len(), e_end),
        scan_ok(cs, e_end + lit_kd().len(), k_end),
        v.sha256_hash == cs.subrange(lit_hash().len() as int, h_end),
        v.file_size as nat == dec_val(cs.subrange(h_end + lit_size().len(), d_end)),
        v.created_at == cs.subrange(d_end + lit_created().len(), c_end),
        v.encryption_method == cs.subrange(c_end + lit_enc().len(), e_end),
        v.key_derivation == cs.subrange(e_end + lit_kd().len(), k_end),
    ensures
        v == w,
{
    lemma_layout(cs, w);
    reveal_lits();
    align_h(cs, w, h_end);
    align_d(cs, w, d_end);
    align_c(cs, w, c_end);
    align_e(cs, w, e_end);
    align_k(cs, w, k_end);
    assert(v.sha256_hash =~= w.sha256_hash);
    assert(cs.subrange(o_size(w), o_size_end(w)) =~= dec_of(w.file_size as nat));
    lemma_dec_of_val(w.file_size as nat);
    assert(v.file_size == w.file_size);
    assert(v.created_at =~= w.created_at);
    assert(v.encryption_method =~= w.encryption_method);
    assert(v.key_derivation =~= w.key_derivation);
}


/// Reads a metadata record from its wire form.  Succeeds exactly on
/// `metadata_json_of(w)` for a well-formed `w`, and then yields that
/// very record: the wire form determines the record.
pub fn parse_metadata(s: &str) -> (r: Option<FileIntegrityInfo>)
    ensures
        r matches Some(info) ==> info_wf(info@) && s@ == metadata_json_of(info@),
        forall|w: IntegrityInfoView|
            info_wf(w) && s@ == #[trigger] metadata_json_of(w) ==> (r matches Some(info)
                && info@ == w),
{
    let chars = str_chars(s);
    let n = chars.len();
    let ghost cs = chars@;
    let p1 = match expect_lit(&chars, 0, "{\"sha256_hash\":\"") {
        Some(p) => p,
        None => {
            proof {
                nw_lit_hash(cs);
            }
            return None;
        },
    };
    let h_end = match scan_field(&chars, p1) {
        Some(e) => e,
        None => {
            proof {
                nw_scan_hash(cs);
            }
            return None;
        },
    };
    let hash = chars_to_string(&chars, p1, h_end);
    let p2 = match expect_lit(&chars, h_end, "\",\"file_size\":") {
        Some(p) => p,
        None => {
            proof {
                nw_lit_size(cs, h_end as int);
            }
            return None;
        },
    };
    let d_end = scan_digits(&chars, p2);
    if d_end == p2 {
        proof {
            nw_digits(cs, h_end as int, d_end as int, false);
        }
        return None;
    }
    if d_end - p2 > 1 && chars[p2] == '0' {
        proof {
            nw_digits(cs, h_end as int, d_end as int, dec_val(
                cs.subrange(p2 as int, d_end as int),
            ) <= u64::MAX);
        }
        return None;
    }
    let size = match parse_u64_dec(&chars, p2, d_end) {
        Some(v) => v,
        None => {
            proof {
                nw_digits(cs, h_end as int, d_end as int, false);
            }
            return None;
        },
    };
    let p3 = match expect_lit(&chars, d_end, ",\"created_at\":\"") {
        Some(p) => p,
        None => {
            proof {
                nw_lit_created(cs, h_end as int, d_end as int);
            }
            return None;
        },
    };
    let c_end = match scan_field(&chars, p3) {
        Some(e) => e,
        None => {
            proof {
                nw_scan_created(cs, h_end as int, d_end as int);
            }
            return None;
        },
    };
    let created = chars_to_string(&chars, p3, c_end);
    let p4 = match expect_lit(&chars, c_end, "\",\"encryption_method\":\"") {
        Some(p) => p,
        None => {
            proof {
                nw_lit_enc(cs, h_end as int, d_end as int, c_end as int);
            }
            return None;
        },
    };
    let e_end = match scan_field(&chars, p4) {
        Some(e) => e,
        None => {
            proof {
                nw_scan_enc(cs, h_end as int, d_end as int, c_end as int);
            }
            return None;
        },
    };
    let method = chars_to_string(&chars, p4, e_end);
    let p5 = match expect_lit(&chars, e_end, "\",\"key_derivation\":\"") {
        Some(p) => p,
        None => {
            proof {
                nw_lit_kd(cs, h_end as int, d_end as int, c_end as int, e_end as int);
            }
            return None;
        },
    };
    let k_end = match scan_field(&chars, p5) {
        Some(e) => e,
        None => {
            proof {
                nw_scan_kd(cs, h_end as int, d_end as int, c_end as int, e_end as int);
            }
            return None;
        },
    };
    let kd = chars_to_string(&chars, p5, k_end);
    let p6 = match expect_lit(&chars, k_end, "\"}") {
        Some(p) => p,
        None => {
            proof {
                nw_end(cs, h_end as int, d_end as int, c_end as int, e_end as int,
                    k_end as int);
            }
            return None;
        },
    };
    if p6 != n {
        proof {
            nw_end(cs, h_end as int, d_end as int, c_end as int, e_end as int, k_end as int);
        }
        return None;
    }
    let info = FileIntegrityInfo {
        sha256_hash: hash,
        file_size: size,
        created_at: created,
        encryption_method: method,
        key_derivation: kd,
    };
    proof {
        parse_sound(cs, h_end as int, d_end as int, c_end as int, e_end as int, k_end as int,
            info@);
        assert forall|w: IntegrityInfoView|
            info_wf(w) && cs == #[trigger] metadata_json_of(w) implies info@ == w by {
            parse_determined(cs, h_end as int, d_end as int, c_end as int, e_end as int,
                k_end as int, info@, w);
        }
    }
    Some(info)
}

} // verus!
