//! Decimal text and little-endian byte encodings for the integers that
//! appear in the container format: the metadata length prefix, the
//! iteration count inside the key-derivation label, and the declared
//! ciphertext size inside the metadata record.

use vstd::prelude::*;

verus! {

/// The character for one decimal digit value.
pub open spec fn dec_digit(d: int) -> char {
    if d == 0 {
        '0'
    } else if d == 1 {
        '1'
    } else if d == 2 {
        '2'
    } else if d == 3 {
        '3'
    } else if d == 4 {
        '4'
    } else if d == 5 {
        '5'
    } else if d == 6 {
        '6'
    } else if d == 7 {
        '7'
    } else if d == 8 {
        '8'
    } else {
        '9'
    }
}

/// The value of one decimal digit character, or 10 for any other character.
pub open spec fn dec_digit_val(c: char) -> int {
    if c == '0' {
        0
    } else if c == '1' {
        1
    } else if c == '2' {
        2
    } else if c == '3' {
        3
    } else if c == '4' {
        4
    } else if c == '5' {
        5
    } else if c == '6' {
        6
    } else if c == '7' {
        7
    } else if c == '8' {
        8
    } else if c == '9' {
        9
    } else {
        10
    }
}

pub open spec fn is_dec_digit(c: char) -> bool {
    dec_digit_val(c) < 10
}

/// The usual decimal notation of a natural number, without sign or
/// leading zeros.
pub open spec fn dec_of(n: nat) -> Seq<char>
    decreases n,
{
    if n < 10 {
        seq![dec_digit(n as int)]
    } else {
        dec_of(n / 10) + seq![dec_digit((n % 10) as int)]
    }
}

/// The numeric value of a digit string, read most significant first.
pub open spec fn dec_val(s: Seq<char>) -> nat
    decreases s.len(),
{
    if s.len() == 0 {
        0
    } else {
        dec_val(s.drop_last()) * 10 + (if is_dec_digit(s.last()) {
            dec_digit_val(s.last()) as nat
        } else {
            0
        })
    }
}

pub open spec fn all_dec_digits(s: Seq<char>) -> bool {
    forall|i: int| 0 <= i < s.len() ==> is_dec_digit(#[trigger] s[i])
}

proof fn lemma_dec_digit_roundtrip(d: int)
    requires
        0 <= d < 10,
    ensures
        dec_digit_val(dec_digit(d)) == d,
        is_dec_digit(dec_digit(d)),
{
}

/// Reading back the decimal notation of `n` gives `n`, and the notation
/// consists of digits only.
pub proof fn lemma_dec_of_val(n: nat)
    ensures
        dec_val(dec_of(n)) == n,
        all_dec_digits(dec_of(n)),
        dec_of(n).len() >= 1,
    decreases n,
{
    if n < 10 {
        lemma_dec_digit_roundtrip(n as int);
        assert(dec_of(n) == seq![dec_digit(n as int)]);
        assert(dec_of(n).drop_last() =~= Seq::<char>::empty());
        assert(dec_val(Seq::<char>::empty()) == 0);
        assert(dec_of(n).last() == dec_digit(n as int));
        assert(dec_val(dec_of(n)) == 0 * 10 + dec_digit_val(dec_digit(n as int)));
    } else {
        lemma_dec_of_val(n / 10);
        lemma_dec_digit_roundtrip((n % 10) as int);
        let s = dec_of(n);
        assert(s == dec_of(n / 10) + seq![dec_digit((n % 10) as int)]);
        assert(s.drop_last() =~= dec_of(n / 10));
        assert(s.last() == dec_digit((n % 10) as int));
        assert(dec_val(s) == (n / 10) * 10 + n % 10);
        assert((n / 10) * 10 + n % 10 == n) by (nonlinear_arith);
    }
}

/// The decimal notation of a positive number does not start with a zero.
pub proof fn lemma_dec_of_leading(n: nat)
    ensures
        n >= 1 ==> dec_of(n)[0] != '0',
    decreases n,
{
    if 1 <= n < 10 {
        assert(dec_of(n) == seq![dec_digit(n as int)]);
    } else if n >= 10 {
        lemma_dec_of_leading(n / 10);
        lemma_dec_of_val(n / 10);
        assert(dec_of(n) == dec_of(n / 10) + seq![dec_digit((n % 10) as int)]);
        assert(dec_of(n)[0] == dec_of(n / 10)[0]);
    }
}

/// Ten to the `k`.
pub open spec fn pow10(k: nat) -> nat
    decreases k,
{
    if k == 0 {
        1
    } else {
        10 * pow10((k - 1) as nat)
    }
}

/// A number below ten to the `k` has at most `k` decimal digits.
pub proof fn lemma_dec_of_len(n: nat, k: nat)
    requires
        k >= 1,
        n < pow10(k),
    ensures
        dec_of(n).len() <= k,
    decreases k,
{
    if n < 10 {
    } else {
        assert(pow10(k) == 10 * pow10((k - 1) as nat));
        assert(n / 10 < pow10((k - 1) as nat)) by (nonlinear_arith)
            requires
                n < 10 * pow10((k - 1) as nat),
                n >= 10,
        ;
        assert(k >= 2) by {
            if k == 1 {
                assert(pow10(1nat) == 10);
            }
        }
        lemma_dec_of_len(n / 10, (k - 1) as nat);
    }
}

/// Any `u64` has at most twenty decimal digits.
pub proof fn lemma_dec_of_len_u64(n: u64)
    ensures
        dec_of(n as nat).len() <= 20,
{
    reveal_with_fuel(pow10, 21);
    assert(pow10(20) > 0xFFFFFFFFFFFFFFFF);
    lemma_dec_of_len(n as nat, 20);
}

/// Any `u32` has at most ten decimal digits.
pub proof fn lemma_dec_of_len_u32(n: u32)
    ensures
        dec_of(n as nat).len() <= 10,
{
    reveal_with_fuel(pow10, 11);
    assert(pow10(10) > 0xFFFFFFFF);
    lemma_dec_of_len(n as nat, 10);
}

/// One decimal digit as a string slice.
fn dec_digit_str(d: u8) -> (r: &'static str)
    requires
        d < 10,
    ensures
        r@ == seq![dec_digit(d as int)],
{
    proof {
        reveal_strlit("0");
        reveal_strlit("1");
        reveal_strlit("2");
        reveal_strlit("3");
        reveal_strlit("4");
        reveal_strlit("5");
        reveal_strlit("6");
        reveal_strlit("7");
        reveal_strlit("8");
        reveal_strlit("9");
    }
    let r = if d == 0 {
        "0"
    } else if d == 1 {
        "1"
    } else if d == 2 {
        "2"
    } else if d == 3 {
        "3"
    } else if d == 4 {
        "4"
    } else if d == 5 {
        "5"
    } else if d == 6 {
        "6"
    } else if d == 7 {
        "7"
    } else {
        "9"
    };
    let r = if d == 8 {
        "8"
    } else {
        r
    };
    proof {
        assert(r@ =~= seq![dec_digit(d as int)]);
    }
    r
}

/// Writes a number in decimal notation.
pub fn u64_to_dec(n: u64) -> (r: String)
    ensures
        r@ == dec_of(n as nat),
    decreases n,
{
    if n < 10 {
        dec_digit_str(n as u8).to_owned()
    } else {
        let mut r = u64_to_dec(n / 10);
        r.append(dec_digit_str((n % 10) as u8));
        r
    }
}

/// Tests a character for being a decimal digit, giving its value.
fn dec_digit_of_char(c: char) -> (r: Option<u8>)
    ensures
        r is Some <==> is_dec_digit(c),
        r is Some ==> r->0 == dec_digit_val(c),
{
    let u = c as u32;
    proof {
        vstd::utf8::char_u32_cast(c, u);
    }
    if 48 <= u && u <= 57 {
        proof {
            // Identify the ten digit characters by their scalar values.
            assert(c == '0' || c == '1' || c == '2' || c == '3' || c == '4' || c == '5' || c
                == '6' || c == '7' || c == '8' || c == '9');
        }
        Some((u - 48) as u8)
    } else {
        proof {
            assert(!is_dec_digit(c));
        }
        None
    }
}

/// Reads an unsigned number in decimal notation from `s[start..end]`.
/// Succeeds exactly on a non-empty run of digits whose value fits in a
/// `u64`; leading zeros are accepted.
pub fn parse_u64_dec(s: &Vec<char>, start: usize, end: usize) -> (r: Option<u64>)
    requires
        start <= end <= s@.len(),
    ensures
        r is Some <==> (start < end && all_dec_digits(s@.subrange(start as int, end as int))
            && dec_val(s@.subrange(start as int, end as int)) <= u64::MAX),
        r is Some ==> r->0 == dec_val(s@.subrange(start as int, end as int)),
{
    if start == end {
        proof {
            assert(s@.subrange(start as int, end as int).len() == 0);
        }
        return None;
    }
    let mut acc: u64 = 0;
    let mut i: usize = start;
    while i < end
        invariant
            start <= i <= end <= s@.len(),
            all_dec_digits(s@.subrange(start as int, i as int)),
            acc == dec_val(s@.subrange(start as int, i as int)),
        decreases end - i,
    {
        let ghost pre = s@.subrange(start as int, i as int);
        match dec_digit_of_char(s[i]) {
            Some(d) => {
                if acc > (u64::MAX - (d as u64)) / 10 {
                    // The value no longer fits; the full run cannot fit
                    // either, since appending digits only grows it.
                    proof {
                        let whole = s@.subrange(start as int, end as int);
                        lemma_dec_val_prefix_bound(whole, (i + 1 - start) as int);
                        assert(whole.subrange(0, i + 1 - start) =~= s@.subrange(
                            start as int,
                            i as int + 1,
                        ));
                        assert(s@.subrange(start as int, i as int + 1).drop_last() =~= pre);
                        assert(dec_val(s@.subrange(start as int, i as int + 1)) == acc * 10
                            + d);
                        assert(acc * 10 + d > u64::MAX) by (nonlinear_arith)
                            requires
                                acc > (u64::MAX - (d as u64)) / 10,
                                d < 10,
                        ;
                    }
                    return None;
                }
                proof {
                    assert(acc * 10 + d <= u64::MAX) by (nonlinear_arith)
                        requires
                            acc <= (u64::MAX - (d as u64)) / 10,
                            d < 10,
                    ;
                }
                acc = acc * 10 + (d as u64);
                i = i + 1;
                proof {
                    assert(s@.subrange(start as int, i as int).drop_last() =~= pre);
                    assert(s@.subrange(start as int, i as int).last() == s@[i - 1]);
                }
            },
            None => {
                proof {
                    assert(s@.subrange(start as int, end as int)[i - start] == s@[i as int]);
                }
                return None;
            },
        }
    }
    proof {
        assert(s@.subrange(start as int, i as int) =~= s@.subrange(start as int, end as int));
    }
    Some(acc)
}

/// A digit string is worth at least as much as any of its prefixes.
proof fn lemma_dec_val_prefix_bound(s: Seq<char>, k: int)
    requires
        0 <= k <= s.len(),
    ensures
        dec_val(s.subrange(0, k)) <= dec_val(s),
    decreases s.len() - k,
{
    if k == s.len() {
        assert(s.subrange(0, k) =~= s);
    } else {
        lemma_dec_val_prefix_bound(s, k + 1);
        let a = s.subrange(0, k);
        let b = s.subrange(0, k + 1);
        assert(b.drop_last() =~= a);
        assert(dec_val(b) >= dec_val(a) * 10) by (nonlinear_arith)
            requires
                dec_val(b) == dec_val(a) * 10 + (if is_dec_digit(b.last()) {
                    dec_digit_val(b.last()) as nat
                } else {
                    0
                }),
        ;
        assert(dec_val(a) * 10 >= dec_val(a)) by (nonlinear_arith);
    }
}

/// The four bytes of a 32-bit number, least significant first.
pub open spec fn le32_of(n: u32) -> Seq<u8> {
    seq![
        (n % 256) as u8,
        ((n / 256) % 256) as u8,
        ((n / 0x10000) % 256) as u8,
        ((n / 0x1000000) % 256) as u8,
    ]
}

/// The number carried by four little-endian bytes.
pub open spec fn le32_val(b0: u8, b1: u8, b2: u8, b3: u8) -> u32 {
    (b0 + b1 * 256 + b2 * 0x10000 + b3 * 0x1000000) as u32
}

pub proof fn lemma_le32_roundtrip(n: u32)
    ensures
        le32_val(le32_of(n)[0], le32_of(n)[1], le32_of(n)[2], le32_of(n)[3]) == n,
{
    assert((n % 256) + ((n / 256) % 256) * 256 + ((n / 0x10000) % 256) * 0x10000 + ((n
        / 0x1000000) % 256) * 0x1000000 == n) by (bit_vector);
}

/// Serializes a 32-bit number as four little-endian bytes.
pub fn u32_to_le(n: u32) -> (r: Vec<u8>)
    ensures
        r@ == le32_of(n),
{
    let mut r: Vec<u8> = Vec::new();
    r.push((n % 256) as u8);
    r.push(((n / 256) % 256) as u8);
    r.push(((n / 0x10000) % 256) as u8);
    r.push(((n / 0x1000000) % 256) as u8);
    proof {
        assert(r@ =~= le32_of(n));
    }
    r
}

/// Reads the number carried by four little-endian bytes.
pub fn u32_from_le(b0: u8, b1: u8, b2: u8, b3: u8) -> (r: u32)
    ensures
        r == le32_val(b0, b1, b2, b3),
{
    proof {
        assert((b0 as int) + (b1 as int) * 256 + (b2 as int) * 0x10000 + (b3 as int) * 0x1000000
            <= 0xFFFFFFFF) by (bit_vector);
    }
    (b0 as u32) + (b1 as u32) * 256 + (b2 as u32) * 0x10000 + (b3 as u32) * 0x1000000
}

} // verus!
