//! Doubles without floating point: the grammar of a floating-point literal, by which
//! the body of a double frame is checked, and the choice between scientific and
//! fixed notation, made on the bit pattern of the value.

use crate::decimal::is_digit;
use crate::decimal::signed_digits;
use crate::error::FloatErrorKind;
use vstd::prelude::*;
use vstd::slice::slice_subrange;
use vstd::string::StringSliceAdditionalSpecFns;
use vstd::utf8::encode_utf8;

verus! {

/// The first index from `from` on at which `s` has no digit.
pub open spec fn digits_end(s: Seq<u8>, from: int) -> int
    decreases s.len() - from,
{
    if 0 <= from < s.len() && is_digit(s[from]) {
        digits_end(s, from + 1)
    } else {
        from
    }
}

/// An ASCII letter in lower case, any other byte as it is.
pub open spec fn lower(b: u8) -> u8 {
    if 65 <= b <= 90 {
        (b + 32) as u8
    } else {
        b
    }
}

/// `s` is `word`, in any mix of upper and lower case.
pub open spec fn spells(s: Seq<u8>, word: Seq<char>) -> bool {
    let w = encode_utf8(word);
    s.len() == w.len() && forall|i: int| 0 <= i < s.len() ==> lower(#[trigger] s[i]) == w[i]
}

/// `s` is a decimal number: digits with at most one point among them, at least one
/// digit before or after it, and then an optional exponent of `e` or `E`, an
/// optional sign and at least one digit.
pub open spec fn is_number(s: Seq<u8>) -> bool {
    let int_end = digits_end(s, 0);
    let frac_start = if int_end < s.len() && s[int_end] == 46u8 {
        int_end + 1
    } else {
        int_end
    };
    let frac_end = digits_end(s, frac_start);
    let exp_start = if frac_end + 1 < s.len() && (s[frac_end + 1] == 43u8 || s[frac_end + 1]
        == 45u8) {
        frac_end + 2
    } else {
        frac_end + 1
    };
    int_end + (frac_end - frac_start) >= 1 && (frac_end == s.len() || ((s[frac_end] == 101u8
        || s[frac_end] == 69u8) && exp_start < s.len() && digits_end(s, exp_start) == s.len()))
}

/// `s` is a floating-point literal: an optional sign, and then a decimal number or
/// one of the words `inf`, `infinity` and `nan`.
pub open spec fn is_float_text(s: Seq<u8>) -> bool {
    let body = signed_digits(s);
    spells(body, "inf"@) || spells(body, "infinity"@) || spells(body, "nan"@) || is_number(body)
}

/// What `s` is as the body of a double: accepted, or the reason why not.
pub open spec fn float_check(s: Seq<u8>) -> Result<(), FloatErrorKind> {
    if s.len() == 0 {
        Err(FloatErrorKind::Empty)
    } else if is_float_text(s) {
        Ok(())
    } else {
        Err(FloatErrorKind::Invalid)
    }
}

/// Finds the end of the run of digits that starts at `from`.
fn skip_digits(s: &[u8], from: usize) -> (end: usize)
    requires
        from <= s@.len(),
    ensures
        end == digits_end(s@, from as int),
        from <= end <= s@.len(),
{
    let mut i: usize = from;
    while i < s.len() && 48 <= s[i] && s[i] <= 57
        invariant
            from <= i <= s@.len(),
            digits_end(s@, from as int) == digits_end(s@, i as int),
        decreases s.len() - i,
    {
        i = i + 1;
    }
    i
}

/// Compares `s` with `word` without regard to case.
fn spells_word(s: &[u8], word: &str) -> (yes: bool)
    ensures
        yes == spells(s@, word@),
{
    let w = word.as_bytes();
    if s.len() != w.len() {
        return false;
    }
    let mut i: usize = 0;
    while i < s.len()
        invariant
            i <= s@.len(),
            s@.len() == w@.len(),
            w@ == encode_utf8(word@),
            forall|j: int| 0 <= j < i ==> lower(#[trigger] s@[j]) == w@[j],
        decreases s.len() - i,
    {
        let b: u8 = if 65 <= s[i] && s[i] <= 90 {
            s[i] + 32
        } else {
            s[i]
        };
        if b != w[i] {
            return false;
        }
        i = i + 1;
    }
    true
}

/// Checks a run of bytes against the grammar of decimal numbers.
fn number_shaped(s: &[u8]) -> (yes: bool)
    ensures
        yes == is_number(s@),
{
    let int_end = skip_digits(s, 0);
    let frac_start: usize = if int_end < s.len() && s[int_end] == 46 {
        int_end + 1
    } else {
        int_end
    };
    let frac_end = skip_digits(s, frac_start);
    if int_end + (frac_end - frac_start) < 1 {
        return false;
    }
    if frac_end == s.len() {
        return true;
    }
    if s[frac_end] != 101 && s[frac_end] != 69 {
        return false;
    }
    let exp_start: usize = if frac_end + 1 < s.len() && (s[frac_end + 1] == 43 || s[frac_end + 1]
        == 45) {
        frac_end + 2
    } else {
        frac_end + 1
    };
    if exp_start >= s.len() {
        return false;
    }
    skip_digits(s, exp_start) == s.len()
}

/// Checks the body of a double against the grammar of floating-point literals.
pub fn check_float(text: &[u8]) -> (r: Result<(), FloatErrorKind>)
    ensures
        r == float_check(text@),
{
    if text.len() == 0 {
        return Err(FloatErrorKind::Empty);
    }
    let start: usize = if text[0] == 43 || text[0] == 45 {
        1
    } else {
        0
    };
    let body = slice_subrange(text, start, text.len());
    assert(body@ =~= signed_digits(text@));
    if spells_word(body, "inf") || spells_word(body, "infinity") || spells_word(body, "nan")
        || number_shaped(body) {
        Ok(())
    } else {
        Err(FloatErrorKind::Invalid)
    }
}

/// How a double is written out.
#[derive(Debug, PartialEq, Eq, Clone, Copy, Structural)]
pub enum Notation {
    /// A mantissa and a power of ten, with the sign always written.
    Scientific,
    /// Plain decimal digits, with the sign written for values that are not negative.
    Fixed,
}

/// The bit pattern of `1e8`.
pub const BITS_1E8: u64 = 0x4197_d784_0000_0000;

/// The bit pattern of `1e-7`.
pub const BITS_1E_MINUS_7: u64 = 0x3e7a_d7f2_9abc_af48;

/// The bit pattern of positive infinity. Magnitudes above it are not numbers.
pub const BITS_INFINITY: u64 = 0x7ff0_0000_0000_0000;

/// The bit pattern without its sign bit. Among numbers a larger magnitude has the
/// larger pattern.
pub open spec fn magnitude(bits: u64) -> u64 {
    bits & 0x7fff_ffff_ffff_ffff
}

/// A double with the bit pattern `bits` is written in scientific notation: it is a
/// number other than zero whose absolute value is at least `1e8` or at most `1e-7`.
pub open spec fn is_scientific(bits: u64) -> bool {
    let m = magnitude(bits);
    m != 0 && m <= BITS_INFINITY && (m >= BITS_1E8 || m <= BITS_1E_MINUS_7)
}

/// Chooses the notation for the double whose bit pattern is `bits`.
pub fn double_notation(bits: u64) -> (notation: Notation)
    ensures
        notation == Notation::Scientific <==> is_scientific(bits),
{
    let m: u64 = bits & 0x7fff_ffff_ffff_ffff;
    if m != 0 && m <= BITS_INFINITY && (m >= BITS_1E8 || m <= BITS_1E_MINUS_7) {
        Notation::Scientific
    } else {
        Notation::Fixed
    }
}

/// The text `digits` with its sign written out: as it is where it starts with `-`,
/// and after a `+` otherwise.
pub open spec fn signed_text(digits: Seq<char>) -> Seq<char> {
    if digits.len() > 0 && digits[0] == '-' {
        digits
    } else {
        seq!['+'] + digits
    }
}

/// Writes the sign of a number in fixed notation out.
pub fn with_explicit_sign(digits: &str) -> (text: String)
    ensures
        text@ == signed_text(digits@),
{
    let negative = !digits.is_empty() && digits.get_char(0) == '-';
    proof {
        reveal_strlit("+");
    }
    if negative {
        String::from_str(digits)
    } else {
        let mut text = String::from_str("+");
        text.append(digits);
        assert(text@ =~= seq!['+'] + digits@);
        text
    }
}

} // verus!
