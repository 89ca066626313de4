//! Verified text utilities: string equality, hexadecimal identifiers and
//! decimal numbers as strings.

use vstd::arithmetic::div_mod::lemma_fundamental_div_mod;
use vstd::prelude::*;
use vstd::string::*;

verus! {

/// Powers of sixteen.
pub open spec fn p16(k: nat) -> nat
    decreases k,
{
    if k == 0 {
        1
    } else {
        16 * p16((k - 1) as nat)
    }
}

/// Powers of ten.
pub open spec fn p10(k: nat) -> nat
    decreases k,
{
    if k == 0 {
        1
    } else {
        10 * p10((k - 1) as nat)
    }
}

pub proof fn lemma_p16_mono(a: nat, b: nat)
    requires
        a <= b,
    ensures
        p16(a) <= p16(b),
    decreases b,
{
    if a < b {
        lemma_p16_mono(a, (b - 1) as nat);
    }
}

pub open spec fn is_dec_digit(c: char) -> bool {
    '0' <= c && c <= '9'
}

pub open spec fn dec_digit_val(c: char) -> nat {
    (c as u32 - '0' as u32) as nat
}

pub open spec fn is_hex_digit(c: char) -> bool {
    ('0' <= c && c <= '9') || ('a' <= c && c <= 'f') || ('A' <= c && c <= 'F')
}

pub open spec fn hex_digit_val(c: char) -> nat {
    if '0' <= c && c <= '9' {
        (c as u32 - '0' as u32) as nat
    } else if 'a' <= c && c <= 'f' {
        (c as u32 - 'a' as u32 + 10) as nat
    } else {
        (c as u32 - 'A' as u32 + 10) as nat
    }
}

/// Value of the first `i` characters of `s` read as a big-endian hexadecimal
/// number.
pub open spec fn hex_prefix_val(s: Seq<char>, i: int) -> nat
    decreases i,
{
    if i <= 0 {
        0
    } else {
        hex_prefix_val(s, i - 1) * 16 + hex_digit_val(s[i - 1])
    }
}

/// Value of the first `i` characters of `s` read as a big-endian decimal
/// number.
pub open spec fn dec_prefix_val(s: Seq<char>, i: int) -> nat
    decreases i,
{
    if i <= 0 {
        0
    } else {
        dec_prefix_val(s, i - 1) * 10 + dec_digit_val(s[i - 1])
    }
}

/// A well-formed textual identifier: exactly 24 hexadecimal digits.
pub open spec fn hex24_ok(s: Seq<char>) -> bool {
    s.len() == 24 && forall|i: int| 0 <= i < 24 ==> is_hex_digit(#[trigger] s[i])
}

/// Value of a full hexadecimal string.
pub open spec fn hex24_val(s: Seq<char>) -> nat {
    hex_prefix_val(s, 24)
}

/// A numeric code: one or more decimal digits and nothing else.
pub open spec fn is_numeric(s: Seq<char>) -> bool {
    s.len() > 0 && forall|i: int| 0 <= i < s.len() ==> is_dec_digit(#[trigger] s[i])
}

/// Value of a numeric code.
pub open spec fn dec_val(s: Seq<char>) -> nat {
    dec_prefix_val(s, s.len() as int)
}

pub proof fn lemma_hex_digit_val_bound(c: char)
    requires
        is_hex_digit(c),
    ensures
        hex_digit_val(c) < 16,
{
}

pub proof fn lemma_hex_prefix_bound(s: Seq<char>, i: int)
    requires
        0 <= i <= s.len(),
        forall|j: int| 0 <= j < i ==> is_hex_digit(#[trigger] s[j]),
    ensures
        hex_prefix_val(s, i) < p16(i as nat),
    decreases i,
{
    if i > 0 {
        lemma_hex_prefix_bound(s, i - 1);
        lemma_hex_digit_val_bound(s[i - 1]);
    }
}

/// Character equality of two string slices, decided character by character.
pub fn str_eq(a: &str, b: &str) -> (r: bool)
    ensures
        r == (a@ == b@),
{
    let alen = a.unicode_len();
    let blen = b.unicode_len();
    if alen != blen {
        assert(a@ != b@) by {
            assert(a@.len() != b@.len());
        }
        return false;
    }
    let mut i: usize = 0;
    while i < alen
        invariant
            alen == a@.len(),
            blen == b@.len(),
            alen == blen,
            0 <= i <= alen,
            forall|j: int| 0 <= j < i ==> a@[j] == b@[j],
        decreases alen - i,
    {
        if a.get_char(i) != b.get_char(i) {
            return false;
        }
        i = i + 1;
    }
    proof {
        assert(a@ =~= b@);
    }
    true
}

/// Character equality of two strings.
pub fn string_eq(a: &String, b: &String) -> (r: bool)
    ensures
        r == (a@ == b@),
{
    str_eq(a.as_str(), b.as_str())
}

/// The hexadecimal digit of `c`, if `c` is one.
pub fn hex_digit_of(c: char) -> (r: Option<u8>)
    ensures
        match r {
            Some(d) => is_hex_digit(c) && d as nat == hex_digit_val(c) && d < 16,
            None => !is_hex_digit(c),
        },
{
    if '0' <= c && c <= '9' {
        Some((c as u8) - ('0' as u8))
    } else if 'a' <= c && c <= 'f' {
        Some((c as u8) - ('a' as u8) + 10)
    } else if 'A' <= c && c <= 'F' {
        Some((c as u8) - ('A' as u8) + 10)
    } else {
        None
    }
}

/// The decimal digit of `c`, if `c` is one.
pub fn dec_digit_of(c: char) -> (r: Option<u8>)
    ensures
        match r {
            Some(d) => is_dec_digit(c) && d as nat == dec_digit_val(c) && d < 10,
            None => !is_dec_digit(c),
        },
{
    if '0' <= c && c <= '9' {
        Some((c as u8) - ('0' as u8))
    } else {
        None
    }
}

/// Parses a 24-character hexadecimal identifier string.
pub fn parse_hex24(s: &str) -> (r: Option<u128>)
    ensures
        match r {
            Some(v) => hex24_ok(s@) && v as nat == hex24_val(s@) && v < 0x1000000000000000000000000u128,
            None => !hex24_ok(s@),
        },
{
    let n = s.unicode_len();
    if n != 24 {
        return None;
    }
    let mut acc: u128 = 0;
    let mut i: usize = 0;
    while i < 24
        invariant
            s@.len() == 24,
            0 <= i <= 24,
            acc as nat == hex_prefix_val(s@, i as int),
            forall|j: int| 0 <= j < i ==> is_hex_digit(#[trigger] s@[j]),
        decreases 24 - i,
    {
        let c = s.get_char(i);
        match hex_digit_of(c) {
            Some(d) => {
                proof {
                    lemma_hex_prefix_bound(s@, i as int);
                    lemma_p16_mono((i as nat), 24);
                    reveal_with_fuel(p16, 25);
                    assert(acc < 0x1000000000000000000000000u128);
                }
                acc = acc * 16 + (d as u128);
            },
            None => {
                return None;
            },
        }
        i = i + 1;
    }
    proof {
        lemma_hex_prefix_bound(s@, 24);
        reveal_with_fuel(p16, 25);
    }
    Some(acc)
}

/// The lowercase hexadecimal character of digit `d`.
pub open spec fn hex_char_of(d: nat) -> char {
    if d == 0 { '0' } else if d == 1 { '1' } else if d == 2 { '2' } else if d == 3 { '3' }
    else if d == 4 { '4' } else if d == 5 { '5' } else if d == 6 { '6' } else if d == 7 { '7' }
    else if d == 8 { '8' } else if d == 9 { '9' } else if d == 10 { 'a' } else if d == 11 { 'b' }
    else if d == 12 { 'c' } else if d == 13 { 'd' } else if d == 14 { 'e' } else { 'f' }
}

proof fn lemma_hex_char_val(d: nat)
    requires
        d < 16,
    ensures
        is_hex_digit(hex_char_of(d)),
        hex_digit_val(hex_char_of(d)) == d,
{
}

/// A one-character string slice for hexadecimal digit `d`.
fn hex_digit_str(d: u8) -> (r: &'static str)
    requires
        d < 16,
    ensures
        r@.len() == 1,
        r@[0] == hex_char_of(d as nat),
{
    proof {
        reveal_strlit("0"); reveal_strlit("1"); reveal_strlit("2"); reveal_strlit("3");
        reveal_strlit("4"); reveal_strlit("5"); reveal_strlit("6"); reveal_strlit("7");
        reveal_strlit("8"); reveal_strlit("9"); reveal_strlit("a"); reveal_strlit("b");
        reveal_strlit("c"); reveal_strlit("d"); reveal_strlit("e"); reveal_strlit("f");
    }
    match d {
        0 => "0", 1 => "1", 2 => "2", 3 => "3",
        4 => "4", 5 => "5", 6 => "6", 7 => "7",
        8 => "8", 9 => "9", 10 => "a", 11 => "b",
        12 => "c", 13 => "d", 14 => "e", _ => "f",
    }
}

/// Writes `v` as exactly `k` lowercase hexadecimal digits, high digit first.
fn hex_fixed_of(v: u128, k: u8) -> (r: String)
    requires
        (v as nat) < p16(k as nat),
    ensures
        r@.len() == k,
        forall|i: int| 0 <= i < k ==> is_hex_digit(#[trigger] r@[i]),
        hex_prefix_val(r@, k as int) == v as nat,
    decreases k,
{
    if k == 0 {
        let s = String::new();
        s
    } else {
        proof {
            assert(p16(k as nat) == 16 * p16((k - 1) as nat));
            assert((v as nat) / 16 < p16((k - 1) as nat)) by (nonlinear_arith)
                requires
                    (v as nat) < 16 * p16((k - 1) as nat),
            ;
        }
        let high = v / 16;
        let low = (v % 16) as u8;
        let mut s = hex_fixed_of(high, k - 1);
        let ghost sold = s@;
        let ds = hex_digit_str(low);
        s.append(ds);
        proof {
            assert(s@.len() == k);
            lemma_hex_prefix_same(sold, s@, k as int - 1);
            lemma_hex_char_val((v % 16) as nat);
            assert(s@[k as int - 1] == hex_char_of((v % 16) as nat));
            assert(hex_prefix_val(s@, k as int)
                == ((v as nat) / 16) * 16 + (v as nat) % 16);
            lemma_fundamental_div_mod(v as int, 16);
        }
        s
    }
}

/// Two sequences that agree on a prefix have the same prefix value.
pub proof fn lemma_hex_prefix_same(a: Seq<char>, b: Seq<char>, i: int)
    requires
        0 <= i <= a.len(),
        i <= b.len(),
        forall|j: int| 0 <= j < i ==> a[j] == b[j],
    ensures
        hex_prefix_val(a, i) == hex_prefix_val(b, i),
    decreases i,
{
    if i > 0 {
        lemma_hex_prefix_same(a, b, i - 1);
    }
}

/// The decimal character of digit `d`.
pub open spec fn dec_char_of(d: nat) -> char {
    if d == 0 { '0' } else if d == 1 { '1' } else if d == 2 { '2' } else if d == 3 { '3' }
    else if d == 4 { '4' } else if d == 5 { '5' } else if d == 6 { '6' } else if d == 7 { '7' }
    else if d == 8 { '8' } else { '9' }
}

proof fn lemma_dec_char_val(d: nat)
    requires
        d < 10,
    ensures
        is_dec_digit(dec_char_of(d)),
        dec_digit_val(dec_char_of(d)) == d,
{
}

/// The decimal rendering of `n`: high digit first, no leading zero.
pub open spec fn dec_model(n: nat) -> Seq<char>
    decreases n,
{
    if n < 10 {
        seq![dec_char_of(n)]
    } else {
        dec_model(n / 10) + seq![dec_char_of(n % 10)]
    }
}

/// Two sequences that agree on a prefix have the same decimal prefix value.
pub proof fn lemma_dec_prefix_same(a: Seq<char>, b: Seq<char>, i: int)
    requires
        0 <= i <= a.len(),
        i <= b.len(),
        forall|j: int| 0 <= j < i ==> a[j] == b[j],
    ensures
        dec_prefix_val(a, i) == dec_prefix_val(b, i),
    decreases i,
{
    if i > 0 {
        lemma_dec_prefix_same(a, b, i - 1);
    }
}

/// The decimal rendering of `n` is a numeric code whose value is `n`.
pub proof fn lemma_dec_model_val(n: nat)
    ensures
        is_numeric(dec_model(n)),
        dec_val(dec_model(n)) == n,
    decreases n,
{
    lemma_dec_char_val(n % 10);
    if n < 10 {
        assert(dec_prefix_val(dec_model(n), 0) == 0);
        assert(dec_prefix_val(dec_model(n), 1) == dec_digit_val(dec_char_of(n)));
    } else {
        lemma_dec_model_val(n / 10);
        let s = dec_model(n);
        let p = dec_model(n / 10);
        let len = s.len() as int;
        assert(forall|j: int| 0 <= j < len - 1 ==> p[j] == s[j]);
        lemma_dec_prefix_same(p, s, len - 1);
        assert(dec_prefix_val(s, len) == dec_prefix_val(s, len - 1) * 10 + dec_digit_val(s[len - 1]));
        lemma_fundamental_div_mod(n as int, 10);
    }
}

/// A one-character string slice for decimal digit `d`.
fn dec_digit_str(d: u8) -> (r: &'static str)
    requires
        d < 10,
    ensures
        r@.len() == 1,
        r@[0] == dec_char_of(d as nat),
{
    proof {
        reveal_strlit("0"); reveal_strlit("1"); reveal_strlit("2"); reveal_strlit("3");
        reveal_strlit("4"); reveal_strlit("5"); reveal_strlit("6"); reveal_strlit("7");
        reveal_strlit("8"); reveal_strlit("9");
    }
    match d {
        0 => "0", 1 => "1", 2 => "2", 3 => "3", 4 => "4",
        5 => "5", 6 => "6", 7 => "7", 8 => "8", _ => "9",
    }
}

/// Writes `n` in decimal.
pub fn u64_to_dec(n: u64) -> (r: String)
    ensures
        r@ == dec_model(n as nat),
    decreases n,
{
    if n < 10 {
        let r = String::from_str(dec_digit_str(n as u8));
        proof {
            assert(r@ =~= dec_model(n as nat));
        }
        r
    } else {
        let mut s = u64_to_dec(n / 10);
        let ds = dec_digit_str((n % 10) as u8);
        s.append(ds);
        proof {
            assert(s@ =~= dec_model(n as nat));
        }
        s
    }
}

/// Writes `n` in decimal, with a sign when negative.
pub fn i64_to_dec(n: i64) -> (r: String)
    ensures
        n >= 0 ==> r@ == dec_model(n as nat),
        n < 0 ==> r@ == seq!['-'] + dec_model((-(n as int)) as nat),
{
    if n >= 0 {
        u64_to_dec(n as u64)
    } else {
        let mut s = String::from_str("-");
        proof {
            reveal_strlit("-");
        }
        let mag: u64 = if n == i64::MIN {
            9223372036854775808u64
        } else {
            (-n) as u64
        };
        let ds = u64_to_dec(mag);
        s.append(ds.as_str());
        proof {
            assert(s@ =~= seq!['-'] + dec_model((-(n as int)) as nat));
        }
        s
    }
}

/// Result of reading a product code as a number.
pub enum NumParse {
    /// The code is not made of decimal digits only.
    NotNumeric,
    /// A numeric code whose value is outside the range the store's integer
    /// conversion accepts.
    TooBig,
    /// A numeric code and its value.
    Val(u32),
}

/// Reads a product code as a decimal number, mirroring a 32-bit integer
/// conversion: values above `i32::MAX` are reported as out of range.
pub fn parse_numeric(s: &str) -> (r: NumParse)
    ensures
        match r {
            NumParse::NotNumeric => !is_numeric(s@),
            NumParse::TooBig => is_numeric(s@) && dec_val(s@) > 0x7fffffff,
            NumParse::Val(v) => is_numeric(s@) && dec_val(s@) == v as nat && v <= 0x7fffffff,
        },
{
    let n = s.unicode_len();
    if n == 0 {
        return NumParse::NotNumeric;
    }
    let mut acc: u64 = 0;
    let mut big: bool = false;
    let mut i: usize = 0;
    while i < n
        invariant
            n == s@.len(),
            0 <= i <= n,
            forall|j: int| 0 <= j < i ==> is_dec_digit(#[trigger] s@[j]),
            !big ==> acc as nat == dec_prefix_val(s@, i as int) && acc <= 0x7fffffff,
            big ==> dec_prefix_val(s@, i as int) > 0x7fffffff,
        decreases n - i,
    {
        let c = s.get_char(i);
        match dec_digit_of(c) {
            Some(d) => {
                if !big {
                    let next = acc * 10 + (d as u64);
                    if next > 0x7fffffff {
                        big = true;
                    } else {
                        acc = next;
                    }
                } else {
                    proof {
                        assert(dec_prefix_val(s@, i as int + 1)
                            == dec_prefix_val(s@, i as int) * 10 + dec_digit_val(s@[i as int]));
                    }
                }
            },
            None => {
                return NumParse::NotNumeric;
            },
        }
        i = i + 1;
    }
    if big {
        NumParse::TooBig
    } else {
        NumParse::Val(acc as u32)
    }
}

/// ASCII lowercase folding of one character.
pub open spec fn lower_char(c: char) -> char {
    if 'A' <= c && c <= 'Z' {
        ((c as u8) + 32) as char
    } else {
        c
    }
}

/// ASCII lowercase folding of a character sequence.
pub open spec fn lower(s: Seq<char>) -> Seq<char> {
    Seq::new(s.len(), |i: int| lower_char(s[i]))
}

/// Whether `sub` occurs in `s` starting at position `k`.
pub open spec fn match_at(s: Seq<char>, sub: Seq<char>, k: int) -> bool {
    &&& 0 <= k
    &&& k + sub.len() <= s.len()
    &&& forall|j: int| 0 <= j < sub.len() ==> s[k + j] == #[trigger] sub[j]
}

/// Whether `sub` occurs somewhere in `s`.
pub open spec fn seq_contains(s: Seq<char>, sub: Seq<char>) -> bool {
    exists|k: int| match_at(s, sub, k)
}

/// Whether `sub` occurs in `s`, comparing ASCII characters without regard
/// to case.
pub open spec fn contains_ci(s: Seq<char>, sub: Seq<char>) -> bool {
    seq_contains(lower(s), lower(sub))
}

/// One when true, zero when false; a loop measure helper.
pub open spec fn boolint(b: bool) -> int {
    if b {
        1
    } else {
        0
    }
}

/// The ASCII lowercase folding of one character.
fn lower_char_of(c: char) -> (r: char)
    ensures
        r == lower_char(c),
{
    if 'A' <= c && c <= 'Z' {
        ((c as u8) + 32) as char
    } else {
        c
    }
}

/// Decides whether `sub` occurs in `s`, comparing ASCII characters without
/// regard to case.
pub fn str_contains_ci(s: &str, sub: &str) -> (r: bool)
    ensures
        r == contains_ci(s@, sub@),
{
    let n = s.unicode_len();
    let m = sub.unicode_len();
    if m > n {
        proof {
            assert forall|k: int| !match_at(lower(s@), lower(sub@), k) by {}
        }
        return false;
    }
    let mut k: usize = 0;
    while k <= n - m
        invariant
            n == s@.len(),
            m == sub@.len(),
            m <= n,
            0 <= k <= n - m + 1,
            forall|q: int| 0 <= q < k ==> !match_at(lower(s@), lower(sub@), q),
        decreases n - m + 1 - k,
    {
        let mut j: usize = 0;
        let mut ok: bool = true;
        while ok && j < m
            invariant
                n == s@.len(),
                m == sub@.len(),
                m <= n,
                0 <= k <= n - m,
                0 <= j <= m,
                ok ==> forall|q: int| 0 <= q < j
                    ==> lower(s@)[k + q] == #[trigger] lower(sub@)[q],
                !ok ==> !match_at(lower(s@), lower(sub@), k as int),
            decreases m - j + boolint(ok),
    {
            let cs = lower_char_of(s.get_char(k + j));
            let cb = lower_char_of(sub.get_char(j));
            if cs != cb {
                proof {
                    assert(lower(s@)[k + j] != lower(sub@)[j as int]);
                }
                ok = false;
            } else {
                j = j + 1;
            }
        }
        if ok {
            proof {
                assert(match_at(lower(s@), lower(sub@), k as int));
            }
            return true;
        }
        k = k + 1;
    }
    proof {
        assert forall|q: int| !match_at(lower(s@), lower(sub@), q) by {
            if 0 <= q <= n - m {
                assert(!match_at(lower(s@), lower(sub@), q));
            }
        }
    }
    false
}

/// Writes a 96-bit value as a 24-digit lowercase hexadecimal string.
pub fn hex24_of(v: u128) -> (r: String)
    requires
        v < 0x1000000000000000000000000u128,
    ensures
        hex24_ok(r@),
        hex24_val(r@) == v as nat,
{
    proof {
        reveal_with_fuel(p16, 25);
    }
    hex_fixed_of(v, 24)
}

} // verus!
