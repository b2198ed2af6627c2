//! The byte-level model of ASCII text that the whole interpreter works on.
//!
//! Source lines, statement bodies, variable names and printed output are all
//! sequences of ASCII bytes (`Vec<u8>` whose elements are below 128).  This
//! module holds the character classes of the language's tokens, the scanning
//! function that all token recognizers reduce to, and the conversions between
//! digit strings and numbers.

use vstd::prelude::*;
use vstd::string::StringSliceAdditionalSpecFns;

verus! {

/// A byte is ASCII when its value is below 128.
pub open spec fn is_ascii_byte(c: u8) -> bool {
    c < 128
}

/// Text handled by the interpreter: every byte is ASCII.
pub open spec fn ascii_text(s: Seq<u8>) -> bool {
    forall|i: int| 0 <= i < s.len() ==> is_ascii_byte(#[trigger] s[i])
}

/// Checks that every byte of `s` is ASCII.
///
/// Relies on `ascii::AsciiStr::from_ascii`, which accepts a byte slice
/// exactly when every byte is below 128.
#[verifier::external_body]
pub fn check_ascii(s: &Vec<u8>) -> (r: bool)
    ensures
        r <==> ascii_text(s@),
{
    ascii::AsciiStr::from_ascii(s.as_slice()).is_ok()
}

/// The classes of characters that the tokenizer scans over.
#[derive(Clone, Copy, PartialEq, Eq, Structural, Debug)]
pub enum CharClass {
    /// An ASCII decimal digit, `0` to `9`.
    Digit,
    /// An ASCII letter, `a` to `z` or `A` to `Z`.
    Alpha,
    /// A character allowed after the first letter of a variable name:
    /// a letter, a digit, `_` or `-`.
    VarBody,
    /// ASCII whitespace: space, tab, line feed, form feed or carriage return.
    Whitespace,
    /// A character allowed inside a string literal: any printable ASCII
    /// character except the double quote.
    StringBody,
    /// A sign of a term in an expression: `+` or `-`.
    Sign,
    /// A multiplicative operator: `*` or `/`.
    MulDiv,
}

pub open spec fn is_digit_byte(c: u8) -> bool {
    48 <= c <= 57
}

pub open spec fn is_alpha_byte(c: u8) -> bool {
    (97 <= c <= 122) || (65 <= c <= 90)
}

pub open spec fn is_var_body_byte(c: u8) -> bool {
    is_alpha_byte(c) || is_digit_byte(c) || c == 95 || c == 45
}

pub open spec fn is_whitespace_byte(c: u8) -> bool {
    c == 32 || c == 9 || c == 10 || c == 12 || c == 13
}

pub open spec fn is_string_body_byte(c: u8) -> bool {
    32 <= c <= 126 && c != 34
}

pub open spec fn is_sign_byte(c: u8) -> bool {
    c == 43 || c == 45
}

pub open spec fn is_mul_div_byte(c: u8) -> bool {
    c == 42 || c == 47
}

pub open spec fn in_class(cls: CharClass, c: u8) -> bool {
    match cls {
        CharClass::Digit => is_digit_byte(c),
        CharClass::Alpha => is_alpha_byte(c),
        CharClass::VarBody => is_var_body_byte(c),
        CharClass::Whitespace => is_whitespace_byte(c),
        CharClass::StringBody => is_string_body_byte(c),
        CharClass::Sign => is_sign_byte(c),
        CharClass::MulDiv => is_mul_div_byte(c),
    }
}

/// Decides membership of a byte in a character class.
pub fn byte_in_class(cls: CharClass, c: u8) -> (r: bool)
    ensures
        r == in_class(cls, c),
{
    match cls {
        CharClass::Digit => 48 <= c && c <= 57,
        CharClass::Alpha => (97 <= c && c <= 122) || (65 <= c && c <= 90),
        CharClass::VarBody => {
            (97 <= c && c <= 122) || (65 <= c && c <= 90) || (48 <= c && c <= 57) || c == 95
                || c == 45
        },
        CharClass::Whitespace => c == 32 || c == 9 || c == 10 || c == 12 || c == 13,
        CharClass::StringBody => 32 <= c && c <= 126 && c != 34,
        CharClass::Sign => c == 43 || c == 45,
        CharClass::MulDiv => c == 42 || c == 47,
    }
}

/// The position just after the run of `cls` characters that starts at `i`.
pub open spec fn scan_end(s: Seq<u8>, i: int, cls: CharClass) -> int
    decreases s.len() - i,
{
    if i < 0 || i >= s.len() {
        i
    } else if in_class(cls, s[i]) {
        scan_end(s, i + 1, cls)
    } else {
        i
    }
}

/// The run scanned from `i` stays inside the text, consists of characters of
/// the class, and is maximal.
pub proof fn lemma_scan_end(s: Seq<u8>, i: int, cls: CharClass)
    requires
        0 <= i <= s.len(),
    ensures
        i <= scan_end(s, i, cls) <= s.len(),
        forall|j: int| i <= j < scan_end(s, i, cls) ==> in_class(cls, #[trigger] s[j]),
        scan_end(s, i, cls) < s.len() ==> !in_class(cls, s[scan_end(s, i, cls)]),
    decreases s.len() - i,
{
    if i < s.len() && in_class(cls, s[i]) {
        lemma_scan_end(s, i + 1, cls);
    }
}

/// A run of class characters followed by a character outside the class (or by
/// the end of the text) scans exactly to the end of the run.
pub proof fn lemma_scan_end_exact(s: Seq<u8>, i: int, e: int, cls: CharClass)
    requires
        0 <= i <= e <= s.len(),
        forall|j: int| i <= j < e ==> in_class(cls, #[trigger] s[j]),
        e < s.len() ==> !in_class(cls, s[e]),
    ensures
        scan_end(s, i, cls) == e,
    decreases e - i,
{
    if i < e {
        lemma_scan_end_exact(s, i + 1, e, cls);
    }
}

/// The position of the first non-whitespace character at or after `i`.
pub open spec fn after_ws(s: Seq<u8>, i: int) -> int {
    scan_end(s, i, CharClass::Whitespace)
}

/// Skipping whitespace from an already-skipped position moves nowhere.
pub proof fn lemma_after_ws_idempotent(s: Seq<u8>, i: int)
    requires
        0 <= i <= s.len(),
    ensures
        after_ws(s, after_ws(s, i)) == after_ws(s, i),
{
    lemma_scan_end(s, i, CharClass::Whitespace);
}

/// The numeric value of a string of decimal digits.
pub open spec fn digits_val(d: Seq<u8>) -> int
    decreases d.len(),
{
    if d.len() == 0 {
        0
    } else {
        digits_val(d.drop_last()) * 10 + (d.last() - 48)
    }
}

pub proof fn lemma_digits_val_nonneg(d: Seq<u8>)
    requires
        forall|i: int| 0 <= i < d.len() ==> is_digit_byte(#[trigger] d[i]),
    ensures
        digits_val(d) >= 0,
    decreases d.len(),
{
    if d.len() > 0 {
        lemma_digits_val_nonneg(d.drop_last());
    }
}

/// Reading one more digit multiplies the value by ten and adds the digit.
pub proof fn lemma_digits_val_push(d: Seq<u8>, c: u8)
    ensures
        digits_val(d.push(c)) == digits_val(d) * 10 + (c - 48),
{
    assert(d.push(c).drop_last() =~= d);
    assert(d.push(c).last() == c);
}

/// The decimal digit string of a non-negative number.
pub open spec fn dec_digits(n: int) -> Seq<u8>
    decreases n,
{
    if n <= 9 {
        seq![(48 + n) as u8]
    } else {
        dec_digits(n / 10).push((48 + n % 10) as u8)
    }
}

/// The decimal rendering of a number: a minus sign for negative numbers,
/// then the digits of its magnitude.
pub open spec fn dec_rep(n: int) -> Seq<u8> {
    if n < 0 {
        seq![45u8] + dec_digits(-n)
    } else {
        dec_digits(n)
    }
}

/// Ten to the `k`.
pub open spec fn pow10(k: nat) -> int
    decreases k,
{
    if k == 0 {
        1
    } else {
        10 * pow10((k - 1) as nat)
    }
}

/// A number below ten to the `k` has at most `k` decimal digits.
pub proof fn lemma_dec_digits_len(n: int, k: nat)
    requires
        0 <= n,
        1 <= k,
        n < pow10(k),
    ensures
        dec_digits(n).len() <= k,
    decreases k,
{
    if n > 9 {
        vstd::arithmetic::div_mod::lemma_fundamental_div_mod(n, 10);
        assert(n / 10 < pow10((k - 1) as nat));
        lemma_dec_digits_len(n / 10, (k - 1) as nat);
    }
}

/// Compares two byte strings for equality.
pub fn bytes_eq(a: &Vec<u8>, b: &Vec<u8>) -> (r: bool)
    ensures
        r <==> a@ == b@,
{
    if a.len() != b.len() {
        assert(a@ != b@);
        return false;
    }
    let n = a.len();
    let mut i: usize = 0;
    while i < n
        invariant
            n == a.len() == b.len(),
            0 <= i <= n,
            forall|j: int| 0 <= j < i ==> a@[j] == b@[j],
        decreases n - i,
    {
        if a[i] != b[i] {
            return false;
        }
        i += 1;
    }
    assert(a@ =~= b@);
    true
}

/// Appends the bytes of a string literal to `out`.
pub fn push_str_bytes(out: &mut Vec<u8>, s: &str)
    ensures
        final(out)@ == old(out)@ + s.spec_bytes(),
{
    let b = s.as_bytes();
    out.extend_from_slice(b);
}

/// Parses a nonempty string of decimal digits as a `u32`, refusing values
/// that exceed `bound`.
pub fn parse_digits(d: &Vec<u8>, bound: u32) -> (r: Option<u32>)
    requires
        d@.len() > 0,
        forall|i: int| 0 <= i < d@.len() ==> is_digit_byte(#[trigger] d@[i]),
    ensures
        digits_val(d@) <= bound ==> r == Some(digits_val(d@) as u32),
        digits_val(d@) > bound ==> r is None,
{
    let n = d.len();
    let mut acc: u32 = 0;
    let mut i: usize = 0;
    proof {
        assert(d@.subrange(0, 0) =~= Seq::<u8>::empty());
    }
    while i < n
        invariant
            n == d@.len(),
            0 <= i <= n,
            forall|j: int| 0 <= j < d@.len() ==> is_digit_byte(#[trigger] d@[j]),
            acc == digits_val(d@.subrange(0, i as int)),
            acc <= bound,
            bound <= u32::MAX,
        decreases n - i,
    {
        let c = d[i];
        proof {
            lemma_digits_val_push(d@.subrange(0, i as int), c);
            assert(d@.subrange(0, i as int).push(c) =~= d@.subrange(0, i as int + 1));
        }
        let next: u64 = (acc as u64) * 10 + ((c - 48) as u64);
        if next > bound as u64 {
            proof {
                lemma_digits_val_prefix_le(d@, i as int + 1);
            }
            return None;
        }
        acc = next as u32;
        i += 1;
    }
    proof {
        assert(d@.subrange(0, n as int) =~= d@);
    }
    Some(acc)
}

/// The value of a digit string is at least the value of each of its prefixes.
pub proof fn lemma_digits_val_prefix_le(d: Seq<u8>, i: int)
    requires
        0 <= i <= d.len(),
        forall|j: int| 0 <= j < d.len() ==> is_digit_byte(#[trigger] d[j]),
    ensures
        digits_val(d.subrange(0, i)) <= digits_val(d),
    decreases d.len() - i,
{
    if i < d.len() {
        lemma_digits_val_prefix_le(d, i + 1);
        let p = d.subrange(0, i);
        let q = d.subrange(0, i + 1);
        assert(p.push(d[i]) =~= q);
        lemma_digits_val_push(p, d[i]);
        lemma_digits_val_nonneg(p);
    } else {
        assert(d.subrange(0, i) =~= d);
    }
}

/// Renders a number as decimal ASCII text and appends it to `out`.
pub fn push_dec(out: &mut Vec<u8>, n: i16)
    ensures
        final(out)@ == old(out)@ + dec_rep(n as int),
{
    let mut mag: u32 = if n < 0 {
        out.push(45);
        (-(n as i32)) as u32
    } else {
        n as u32
    };
    let ghost mag0 = mag;
    let mut rev: Vec<u8> = Vec::new();
    while mag > 9
        invariant
            dec_digits(mag0 as int) =~= dec_digits(mag as int) + rev@.reverse(),
            mag <= mag0,
        decreases mag,
    {
        let digit: u8 = (mag % 10) as u8 + 48;
        proof {
            assert(rev@.push(digit).reverse() =~= seq![digit] + rev@.reverse());
            assert(dec_digits(mag as int) =~= dec_digits(mag as int / 10).push(digit));
            assert(dec_digits(mag as int / 10) + (seq![digit] + rev@.reverse()) =~= (dec_digits(
                mag as int / 10,
            ).push(digit)) + rev@.reverse());
        }
        rev.push(digit);
        mag = mag / 10;
    }
    let last_digit: u8 = mag as u8 + 48;
    proof {
        assert(dec_digits(mag as int) =~= seq![last_digit]);
    }
    let mut k = rev.len();
    proof {
        assert(rev@.subrange(k as int, rev@.len() as int).reverse() =~= Seq::<u8>::empty());
        assert(out@ + seq![last_digit] + Seq::<u8>::empty() =~= out@.push(last_digit));
    }
    out.push(last_digit);
    let ghost out1 = out@;
    while k > 0
        invariant
            k <= rev@.len(),
            out@ =~= out1 + rev@.subrange(k as int, rev@.len() as int).reverse(),
        decreases k,
    {
        k -= 1;
        let digit = rev[k];
        proof {
            assert(rev@.subrange(k as int, rev@.len() as int).reverse() =~= rev@.subrange(
                k as int + 1,
                rev@.len() as int,
            ).reverse().push(digit));
        }
        out.push(digit);
    }
    proof {
        assert(rev@.subrange(0, rev@.len() as int) =~= rev@);
        if n >= 0 {
            assert(out@ =~= old(out)@ + dec_rep(n as int));
        } else {
            assert(out@ =~= old(out)@ + dec_rep(n as int));
        }
    }
}

} // verus!
