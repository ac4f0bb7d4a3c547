//! Primitive scanners: finding the terminator, matching a leading token, and
//! reading the decimal number of a header.

use crate::decimal::parse_unsigned;
use crate::decimal::read_usize;
use crate::error::Flaw;
use crate::error::RespDecodeError;
use crate::text::listed_text;
use crate::text::render_listed;
use vstd::prelude::*;
use vstd::slice::slice_subrange;
use vstd::string::StringSliceAdditionalSpecFns;

verus! {

/// The two bytes that end every header and every scalar body.
pub const CRLF_LEN: usize = 2;

/// A terminator starts at index `i` of `s`.
pub open spec fn crlf_at(s: Seq<u8>, i: int) -> bool {
    0 <= i && i + 1 < s.len() && s[i] == 13u8 && s[i + 1] == 10u8
}

/// How many terminators start at an index from `from` up to, not including, `to`.
pub open spec fn crlf_count(s: Seq<u8>, from: int, to: int) -> nat
    decreases to - from,
{
    if to <= from {
        0
    } else {
        crlf_count(s, from, to - 1) + if crlf_at(s, to - 1) {
            1nat
        } else {
            0nat
        }
    }
}

/// Where the `nth` terminator that starts at index `from` or later starts, counting
/// from one. There is none for `nth == 0`.
pub open spec fn nth_crlf(s: Seq<u8>, from: int, nth: nat) -> Option<int>
    decreases s.len() - from,
{
    if from < 0 || from + 1 >= s.len() || nth == 0 {
        None
    } else if crlf_at(s, from) {
        if nth == 1 {
            Some(from)
        } else {
            nth_crlf(s, from + 1, (nth - 1) as nat)
        }
    } else {
        nth_crlf(s, from + 1, nth)
    }
}

/// Where the first terminator after the marker byte starts.
pub open spec fn first_crlf(s: Seq<u8>) -> Option<int> {
    nth_crlf(s, 1, 1)
}

/// `nth_crlf` finds a terminator, at `from` or later, with exactly `nth - 1`
/// terminators before it; and it finds one whenever there are `nth` of them.
pub proof fn lemma_nth_crlf_counts(s: Seq<u8>, from: int, nth: nat)
    requires
        0 <= from,
    ensures
        match nth_crlf(s, from, nth) {
            Some(i) => from <= i && crlf_at(s, i) && crlf_count(s, from, i) + 1 == nth,
            None => nth == 0 || crlf_count(s, from, s.len() as int) < nth,
        },
    decreases s.len() - from,
{
    if from + 1 >= s.len() || nth == 0 {
        if nth != 0 {
            lemma_crlf_count_tail(s, from, s.len() as int);
        }
    } else if crlf_at(s, from) {
        if nth == 1 {
            assert(crlf_count(s, from, from) == 0);
        } else {
            lemma_nth_crlf_counts(s, from + 1, (nth - 1) as nat);
            match nth_crlf(s, from + 1, (nth - 1) as nat) {
                Some(i) => {
                    lemma_crlf_count_split(s, from, from + 1, i);
                },
                None => {
                    lemma_crlf_count_split(s, from, from + 1, s.len() as int);
                },
            }
            assert(crlf_count(s, from, from + 1) == 1) by {
                assert(crlf_count(s, from, from) == 0);
            }
        }
    } else {
        lemma_nth_crlf_counts(s, from + 1, nth);
        match nth_crlf(s, from + 1, nth) {
            Some(i) => {
                lemma_crlf_count_split(s, from, from + 1, i);
            },
            None => {
                lemma_crlf_count_split(s, from, from + 1, s.len() as int);
            },
        }
        assert(crlf_count(s, from, from + 1) == 0) by {
            assert(crlf_count(s, from, from) == 0);
        }
    }
}

/// No terminator starts in the last byte or beyond.
proof fn lemma_crlf_count_tail(s: Seq<u8>, from: int, to: int)
    requires
        from + 1 >= s.len(),
    ensures
        crlf_count(s, from, to) == 0,
    decreases to - from,
{
    if to > from {
        lemma_crlf_count_tail(s, from, to - 1);
    }
}

/// Counting over two adjoining ranges adds up.
proof fn lemma_crlf_count_split(s: Seq<u8>, from: int, mid: int, to: int)
    requires
        from <= mid <= to,
    ensures
        crlf_count(s, from, to) == crlf_count(s, from, mid) + crlf_count(s, mid, to),
    decreases to - mid,
{
    if to > mid {
        lemma_crlf_count_split(s, from, mid, to - 1);
    }
}

/// The first terminator after the marker is the least index, from 1 on, at which
/// one starts.
pub proof fn lemma_first_crlf(s: Seq<u8>, from: int)
    requires
        0 <= from,
    ensures
        match nth_crlf(s, from, 1) {
            Some(i) => from <= i && crlf_at(s, i) && forall|j: int| from <= j < i ==> !crlf_at(s, j),
            None => forall|j: int| from <= j ==> !crlf_at(s, j),
        },
    decreases s.len() - from,
{
    if from + 1 >= s.len() {
    } else if crlf_at(s, from) {
    } else {
        lemma_first_crlf(s, from + 1);
    }
}

/// Finds the `nth` terminator of `buf`, not counting one that would start at index
/// 0, and returns the index at which it starts.
pub fn find_crlf(buf: &[u8], nth: usize) -> (found: Option<usize>)
    ensures
        match found {
            Some(i) => nth_crlf(buf@, 1, nth as nat) == Some(i as int),
            None => nth_crlf(buf@, 1, nth as nat) is None,
        },
{
    if nth == 0 || buf.len() < 2 {
        return None;
    }
    let last: usize = buf.len() - 1;
    let mut count: usize = 0;
    let mut i: usize = 1;
    while i < last
        invariant
            1 <= i <= last,
            last + 1 == buf.len(),
            count < nth,
            nth_crlf(buf@, 1, nth as nat) == nth_crlf(buf@, i as int, (nth - count) as nat),
        decreases last - i,
    {
        if buf[i] == 13 && buf[i + 1] == 10 {
            count = count + 1;
            if count == nth {
                return Some(i);
            }
        }
        i = i + 1;
    }
    None
}

/// `data` begins with the bytes of `token`.
pub fn starts_with(data: &[u8], token: &[u8]) -> (yes: bool)
    ensures
        yes == token@.is_prefix_of(data@),
{
    if token.len() > data.len() {
        return false;
    }
    let mut i: usize = 0;
    while i < token.len()
        invariant
            i <= token.len() <= data.len(),
            forall|j: int| 0 <= j < i ==> token@[j] == data@[j],
        decreases token.len() - i,
    {
        if data[i] != token[i] {
            return false;
        }
        i = i + 1;
    }
    assert(token@ =~= data@.subrange(0, token@.len() as int));
    true
}

/// What a leading-marker mismatch reports: the wanted prefix and the bytes found.
pub open spec fn prefix_mismatch_text(prefix: Seq<char>, s: Seq<u8>) -> Seq<char> {
    "expect: prefix("@ + prefix + "), got: "@ + listed_text(s)
}

/// Where the header or scalar body that starts `s` ends: the index of its terminator.
/// Fewer than three bytes cannot hold a marker and a terminator; then the marker is
/// checked, then the terminator sought.
pub open spec fn simple_frame_end(s: Seq<u8>, prefix: Seq<char>) -> Result<int, Flaw> {
    if s.len() < 3 {
        Err(Flaw::NotComplete)
    } else if !vstd::utf8::encode_utf8(prefix).is_prefix_of(s) {
        Err(Flaw::InvalidFrameType(prefix_mismatch_text(prefix, s)))
    } else {
        match first_crlf(s) {
            Some(end) => Ok(end),
            None => Err(Flaw::NotComplete),
        }
    }
}

/// Builds the diagnostic of a leading-marker mismatch from the rendering of the
/// bytes found.
pub fn prefix_mismatch(prefix: &str, rendered: &str) -> (e: RespDecodeError)
    ensures
        e@ == Flaw::InvalidFrameType("expect: prefix("@ + prefix@ + "), got: "@ + rendered@),
{
    let mut text = String::from_str("expect: prefix(");
    text.append(prefix);
    text.append("), got: ");
    text.append(rendered);
    RespDecodeError::InvalidFrameType(text)
}

/// Checks that `buf` starts with `prefix` and finds the terminator that ends its
/// header or scalar body.
pub fn extract_simple_frame_data(buf: &[u8], prefix: &str) -> (r: Result<usize, RespDecodeError>)
    ensures
        match r {
            Ok(end) => simple_frame_end(buf@, prefix@) == Ok::<int, Flaw>(end as int) && 1 <= end
                && end + 2 <= buf.len(),
            Err(e) => simple_frame_end(buf@, prefix@) == Err::<int, Flaw>(e@),
        },
{
    proof {
        lemma_first_crlf(buf@, 1);
    }
    if buf.len() < 3 {
        return Err(RespDecodeError::NotComplete);
    }
    if !starts_with(buf, prefix.as_bytes()) {
        let rendered = render_listed(buf);
        return Err(prefix_mismatch(prefix, rendered.as_str()));
    }
    match find_crlf(buf, 1) {
        Some(end) => Ok(end),
        None => Err(RespDecodeError::NotComplete),
    }
}

/// The bytes of a header between its prefix and its terminator. There are none
/// where the prefix reaches into the terminator.
pub open spec fn header_digits(s: Seq<u8>, prefix: Seq<char>, end: int) -> Seq<u8> {
    let start = vstd::utf8::encode_utf8(prefix).len() as int;
    if start <= end {
        s.subrange(start, end)
    } else {
        Seq::empty()
    }
}

/// The header that starts `s`: where its terminator starts, and the length or count
/// that it declares.
pub open spec fn length_header(s: Seq<u8>, prefix: Seq<char>) -> Result<(int, int), Flaw> {
    match simple_frame_end(s, prefix) {
        Err(flaw) => Err(flaw),
        Ok(end) => match parse_unsigned(header_digits(s, prefix, end), usize::MAX as int) {
            Err(kind) => Err(Flaw::ParseIntError(kind)),
            Ok(len) => Ok((end, len)),
        },
    }
}

/// The bytes of the header of `buf` between its prefix and the terminator at `end`.
pub(crate) fn header_field<'a>(buf: &'a [u8], prefix: &str, end: usize) -> (field: &'a [u8])
    requires
        end <= buf@.len(),
    ensures
        field@ == header_digits(buf@, prefix@, end as int),
{
    let start = prefix.as_bytes().len();
    if start <= end {
        slice_subrange(buf, start, end)
    } else {
        slice_subrange(buf, 0, 0)
    }
}

/// Reads the header of a length-prefixed frame or a container: returns where its
/// terminator starts, and the length or count that it declares.
pub fn parse_length(buf: &[u8], prefix: &str) -> (r: Result<(usize, usize), RespDecodeError>)
    ensures
        match r {
            Ok((end, len)) => length_header(buf@, prefix@) == Ok::<(int, int), Flaw>(
                (end as int, len as int),
            ) && 1 <= end && end + 2 <= buf.len(),
            Err(e) => length_header(buf@, prefix@) == Err::<(int, int), Flaw>(e@),
        },
{
    let end = extract_simple_frame_data(buf, prefix)?;
    match read_usize(header_field(buf, prefix, end)) {
        Ok(len) => Ok((end, len)),
        Err(kind) => Err(RespDecodeError::ParseIntError(kind)),
    }
}

} // verus!
