//! Decimal numbers as bytes: reading the digits of a header or an integer body,
//! and writing a number out in digits.

use crate::error::IntErrorKind;
use vstd::prelude::*;
use vstd::slice::slice_subrange;

verus! {

/// `b` is one of the ASCII digits `0` to `9`.
pub open spec fn is_digit(b: u8) -> bool {
    48 <= b <= 57
}

/// Every byte of `s` is a digit.
pub open spec fn all_digits(s: Seq<u8>) -> bool {
    forall|i: int| 0 <= i < s.len() ==> is_digit(#[trigger] s[i])
}

/// The number that the digits `s` write, most significant digit first.
pub open spec fn decimal_value(s: Seq<u8>) -> nat
    decreases s.len(),
{
    if s.len() == 0 {
        0
    } else {
        decimal_value(s.drop_last()) * 10 + (s.last() - 48) as nat
    }
}

/// The digits of `n`, most significant first, without leading zeros.
pub open spec fn decimal_digits(n: nat) -> Seq<u8>
    decreases n,
{
    if n < 10 {
        seq![(48 + n) as u8]
    } else {
        decimal_digits(n / 10).push((48 + n % 10) as u8)
    }
}

/// The digits of a number after an optional `+`.
pub open spec fn unsigned_digits(s: Seq<u8>) -> Seq<u8> {
    if s.len() > 0 && s[0] == 43u8 {
        s.skip(1)
    } else {
        s
    }
}

/// The digits of a number after an optional `+` or `-`.
pub open spec fn signed_digits(s: Seq<u8>) -> Seq<u8> {
    if s.len() > 0 && (s[0] == 43u8 || s[0] == 45u8) {
        s.skip(1)
    } else {
        s
    }
}

/// What `s` means as an unsigned decimal number of at most `max`: an optional `+`,
/// then one digit or more.
pub open spec fn parse_unsigned(s: Seq<u8>, max: int) -> Result<int, IntErrorKind> {
    let digits = unsigned_digits(s);
    if s.len() == 0 {
        Err(IntErrorKind::Empty)
    } else if digits.len() == 0 || !all_digits(digits) {
        Err(IntErrorKind::InvalidDigit)
    } else if decimal_value(digits) > max {
        Err(IntErrorKind::PosOverflow)
    } else {
        Ok(decimal_value(digits) as int)
    }
}

/// What `s` means as a signed decimal number from `min` to `max`: an optional `+` or
/// `-`, then one digit or more.
pub open spec fn parse_signed(s: Seq<u8>, min: int, max: int) -> Result<int, IntErrorKind> {
    let digits = signed_digits(s);
    if s.len() == 0 {
        Err(IntErrorKind::Empty)
    } else if digits.len() == 0 || !all_digits(digits) {
        Err(IntErrorKind::InvalidDigit)
    } else if s[0] == 45u8 {
        if -decimal_value(digits) < min {
            Err(IntErrorKind::NegOverflow)
        } else {
            Ok(-decimal_value(digits))
        }
    } else {
        if decimal_value(digits) > max {
            Err(IntErrorKind::PosOverflow)
        } else {
            Ok(decimal_value(digits) as int)
        }
    }
}

/// A longer run of digits writes a number at least as large as each of its
/// beginnings.
pub proof fn lemma_decimal_value_grows(s: Seq<u8>, k: int)
    requires
        0 <= k <= s.len(),
    ensures
        decimal_value(s.take(k)) <= decimal_value(s),
    decreases s.len() - k,
{
    if k < s.len() {
        lemma_decimal_value_grows(s, k + 1);
        assert(s.take(k + 1).drop_last() =~= s.take(k));
    } else {
        assert(s.take(k) =~= s);
    }
}

/// The digits of a number are digits, at least one, and they write that number.
pub proof fn lemma_decimal_digits(n: nat)
    ensures
        decimal_digits(n).len() >= 1,
        all_digits(decimal_digits(n)),
        decimal_value(decimal_digits(n)) == n,
    decreases n,
{
    if n < 10 {
        let d = decimal_digits(n);
        assert(d.drop_last() =~= Seq::<u8>::empty());
        assert(decimal_value(d.drop_last()) == 0);
    } else {
        lemma_decimal_digits(n / 10);
        let front = decimal_digits(n / 10);
        let d = decimal_digits(n);
        assert(d.drop_last() =~= front);
        assert(d.last() == (48 + n % 10) as u8);
    }
}

/// A number's digits read back as that number, where it is within the bound.
pub proof fn lemma_parse_unsigned_digits(n: nat, max: int)
    requires
        n <= max,
    ensures
        parse_unsigned(decimal_digits(n), max) == Ok::<int, IntErrorKind>(n as int),
{
    lemma_decimal_digits(n);
    let d = decimal_digits(n);
    assert(is_digit(d[0]));
}

/// A sign and a number's digits read back as the signed number, where it is within
/// the bounds.
pub proof fn lemma_parse_signed_digits(negative: bool, n: nat, min: int, max: int)
    requires
        negative ==> min <= -n,
        !negative ==> n <= max,
    ensures
        parse_signed(
            seq![
                if negative {
                    45u8
                } else {
                    43u8
                },
            ] + decimal_digits(n),
            min,
            max,
        ) == Ok::<int, IntErrorKind>(
            if negative {
                -n
            } else {
                n as int
            },
        ),
{
    lemma_decimal_digits(n);
    let sign = if negative {
        45u8
    } else {
        43u8
    };
    let s = seq![sign] + decimal_digits(n);
    assert(s[0] == sign);
    assert(signed_digits(s) =~= decimal_digits(n));
}

/// Reads `digits` as a number of at most `limit`.
fn read_magnitude(digits: &[u8], limit: u64) -> (r: Result<u64, IntErrorKind>)
    ensures
        match r {
            Ok(v) => digits@.len() > 0 && all_digits(digits@) && decimal_value(digits@) == v && v <= limit,
            Err(IntErrorKind::InvalidDigit) => digits@.len() == 0 || !all_digits(digits@),
            Err(IntErrorKind::PosOverflow) => digits@.len() > 0 && all_digits(digits@) && decimal_value(digits@) > limit,
            Err(_) => false,
        },
{
    if digits.len() == 0 {
        return Err(IntErrorKind::InvalidDigit);
    }
    let mut i: usize = 0;
    while i < digits.len()
        invariant
            i <= digits.len(),
            forall|j: int| 0 <= j < i ==> is_digit(#[trigger] digits@[j]),
        decreases digits.len() - i,
    {
        if digits[i] < 48 || digits[i] > 57 {
            return Err(IntErrorKind::InvalidDigit);
        }
        i = i + 1;
    }
    let mut value: u64 = 0;
    let mut k: usize = 0;
    while k < digits.len()
        invariant
            k <= digits.len(),
            all_digits(digits@),
            value == decimal_value(digits@.take(k as int)),
            value <= limit,
        decreases digits.len() - k,
    {
        let d: u64 = (digits[k] - 48) as u64;
        proof {
            assert(digits@.take(k + 1).drop_last() =~= digits@.take(k as int));
            assert(digits@.take(k + 1).last() == digits@[k as int]);
            lemma_decimal_value_grows(digits@, k + 1);
        }
        if d > limit || value > (limit - d) / 10 {
            return Err(IntErrorKind::PosOverflow);
        }
        value = value * 10 + d;
        k = k + 1;
    }
    proof {
        assert(digits@.take(digits@.len() as int) =~= digits@);
    }
    Ok(value)
}

/// Reads a length or a count: an unsigned decimal number that fits `usize`.
pub fn read_usize(text: &[u8]) -> (r: Result<usize, IntErrorKind>)
    ensures
        match r {
            Ok(v) => parse_unsigned(text@, usize::MAX as int) == Ok::<int, IntErrorKind>(v as int),
            Err(kind) => parse_unsigned(text@, usize::MAX as int) == Err::<int, IntErrorKind>(kind),
        },
{
    if text.len() == 0 {
        return Err(IntErrorKind::Empty);
    }
    let start: usize = if text[0] == 43 {
        1
    } else {
        0
    };
    let digits = slice_subrange(text, start, text.len());
    assert(digits@ =~= unsigned_digits(text@));
    match read_magnitude(digits, usize::MAX as u64) {
        Ok(v) => Ok(v as usize),
        Err(kind) => Err(kind),
    }
}

/// Reads the body of an integer frame: a signed decimal number that fits `i64`.
pub fn read_i64(text: &[u8]) -> (r: Result<i64, IntErrorKind>)
    ensures
        match r {
            Ok(v) => parse_signed(text@, i64::MIN as int, i64::MAX as int) == Ok::<int, IntErrorKind>(v as int),
            Err(kind) => parse_signed(text@, i64::MIN as int, i64::MAX as int) == Err::<int, IntErrorKind>(kind),
        },
{
    if text.len() == 0 {
        return Err(IntErrorKind::Empty);
    }
    let negative = text[0] == 45;
    let start: usize = if text[0] == 43 || text[0] == 45 {
        1
    } else {
        0
    };
    let digits = slice_subrange(text, start, text.len());
    assert(digits@ =~= signed_digits(text@));
    if negative {
        match read_magnitude(digits, 0x8000_0000_0000_0000) {
            Ok(v) => {
                if v == 0x8000_0000_0000_0000 {
                    Ok(i64::MIN)
                } else {
                    Ok(-(v as i64))
                }
            },
            Err(IntErrorKind::PosOverflow) => Err(IntErrorKind::NegOverflow),
            Err(kind) => Err(kind),
        }
    } else {
        match read_magnitude(digits, 0x7fff_ffff_ffff_ffff) {
            Ok(v) => Ok(v as i64),
            Err(kind) => Err(kind),
        }
    }
}

/// Appends the digits of `n` to `out`.
pub fn push_decimal(out: &mut Vec<u8>, n: u64)
    ensures
        final(out)@ == old(out)@ + decimal_digits(n as nat),
    decreases n,
{
    if n < 10 {
        out.push(48 + (n as u8));
        assert(final(out)@ =~= old(out)@ + decimal_digits(n as nat));
    } else {
        push_decimal(out, n / 10);
        out.push(48 + ((n % 10) as u8));
        assert(final(out)@ =~= old(out)@ + decimal_digits(n as nat));
    }
}

} // verus!
