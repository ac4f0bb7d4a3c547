//! The length oracle: how many bytes the frame that starts a slice occupies once it
//! is complete, found from its headers alone and without consuming anything.

use crate::decimal::parse_unsigned;
use crate::decimal::read_usize;
use crate::error::Flaw;
use crate::error::IntErrorKind;
use crate::error::RespDecodeError;
use crate::frame::lemma_key_bytes_injective;
use crate::order::rank;
use crate::order::Rank;
use crate::scan::extract_simple_frame_data;
use crate::scan::CRLF_LEN;
use crate::scan::header_digits;
use crate::scan::header_field;
use crate::scan::lemma_first_crlf;
use crate::scan::length_header;
use crate::scan::parse_length;
use crate::scan::simple_frame_end;
use crate::text::escaped_text;
use crate::text::render_escaped;
use vstd::prelude::*;
use vstd::slice::slice_subrange;
use vstd::string::StringSliceAdditionalSpecFns;

verus! {

/// What remains of `s` from index `pos` on: nothing, where `pos` lies beyond its end.
pub open spec fn rest_at(s: Seq<u8>, pos: int) -> Seq<u8> {
    if 0 <= pos <= s.len() {
        s.skip(pos)
    } else {
        Seq::empty()
    }
}

/// A span of `n` bytes, if memory can hold it. A larger one is reported as a number
/// out of range.
pub open spec fn checked_span(n: int) -> Result<nat, Flaw> {
    if 0 <= n <= usize::MAX {
        Ok(n as nat)
    } else {
        Err(Flaw::ParseIntError(IntErrorKind::PosOverflow))
    }
}

/// The header field `-1`, which marks the null bulk string and the null array.
pub open spec fn is_null_sentinel(digits: Seq<u8>) -> bool {
    digits == seq![45u8, 49u8]
}

/// What an unknown leading byte reports.
pub open spec fn unknown_marker_text(s: Seq<u8>) -> Seq<char> {
    "unknown frame type: "@ + escaped_text(s)
}

/// The span of a frame that one terminator ends: up to and including the first
/// terminator after the marker.
pub open spec fn scalar_span(s: Seq<u8>, prefix: Seq<char>) -> Result<nat, Flaw> {
    match simple_frame_end(s, prefix) {
        Err(flaw) => Err(flaw),
        Ok(end) => Ok((end + 2) as nat),
    }
}

/// The span of a bulk string or of the null bulk string: the header, and for a
/// declared length that many bytes and a terminator.
pub open spec fn bulk_span(s: Seq<u8>) -> Result<nat, Flaw> {
    match simple_frame_end(s, "$"@) {
        Err(flaw) => Err(flaw),
        Ok(end) => if is_null_sentinel(header_digits(s, "$"@, end)) {
            Ok((end + 2) as nat)
        } else {
            match parse_unsigned(header_digits(s, "$"@, end), usize::MAX as int) {
                Err(kind) => Err(Flaw::ParseIntError(kind)),
                Ok(len) => checked_span(end + 4 + len),
            }
        },
    }
}

/// Where `count` frames end that follow one another from the start of `t`, when `t`
/// itself starts `base` bytes into the enclosing frame.
pub open spec fn items_span(t: Seq<u8>, count: nat, base: nat) -> Result<nat, Flaw>
    decreases t.len(), count + 3,
{
    if count == 0 {
        Ok(base)
    } else {
        match frame_span(t) {
            Err(flaw) => Err(flaw),
            Ok(n) => if base + n > usize::MAX {
                Err(Flaw::ParseIntError(IntErrorKind::PosOverflow))
            } else {
                items_span(rest_at(t, n as int), (count - 1) as nat, base + n)
            },
        }
    }
}

/// The span of a pair: a simple string as the key, and then a frame as the value.
pub open spec fn pair_span(t: Seq<u8>) -> Result<nat, Flaw>
    decreases t.len(), 2nat,
{
    match scalar_span(t, "+"@) {
        Err(flaw) => Err(flaw),
        Ok(k) => match frame_span(rest_at(t, k as int)) {
            Err(flaw) => Err(flaw),
            Ok(n) => checked_span((k + n) as int),
        },
    }
}

/// Where `count` pairs end that follow one another from the start of `t`, when `t`
/// itself starts `base` bytes into the enclosing frame.
pub open spec fn pairs_span(t: Seq<u8>, count: nat, base: nat) -> Result<nat, Flaw>
    decreases t.len(), count + 3,
{
    if count == 0 {
        Ok(base)
    } else {
        match pair_span(t) {
            Err(flaw) => Err(flaw),
            Ok(n) => if base + n > usize::MAX {
                Err(Flaw::ParseIntError(IntErrorKind::PosOverflow))
            } else {
                pairs_span(rest_at(t, n as int), (count - 1) as nat, base + n)
            },
        }
    }
}

/// The span of an array or of the null array.
pub open spec fn array_span(s: Seq<u8>) -> Result<nat, Flaw>
    decreases s.len(), 0nat,
{
    match simple_frame_end(s, "*"@) {
        Err(flaw) => Err(flaw),
        Ok(end) => if is_null_sentinel(header_digits(s, "*"@, end)) {
            Ok((end + 2) as nat)
        } else {
            match parse_unsigned(header_digits(s, "*"@, end), usize::MAX as int) {
                Err(kind) => Err(Flaw::ParseIntError(kind)),
                Ok(count) => {
                    proof {
                        lemma_first_crlf(s, 1);
                    }
                    items_span(rest_at(s, end + 2), count as nat, (end + 2) as nat)
                },
            }
        },
    }
}

/// The span of a set.
pub open spec fn set_span(s: Seq<u8>) -> Result<nat, Flaw>
    decreases s.len(), 0nat,
{
    match length_header(s, "~"@) {
        Err(flaw) => Err(flaw),
        Ok((end, count)) => {
            proof {
                lemma_first_crlf(s, 1);
            }
            items_span(rest_at(s, end + 2), count as nat, (end + 2) as nat)
        },
    }
}

/// The span of a map.
pub open spec fn map_span(s: Seq<u8>) -> Result<nat, Flaw>
    decreases s.len(), 0nat,
{
    match length_header(s, "%"@) {
        Err(flaw) => Err(flaw),
        Ok((end, count)) => {
            proof {
                lemma_first_crlf(s, 1);
            }
            pairs_span(rest_at(s, end + 2), count as nat, (end + 2) as nat)
        },
    }
}

/// The span of the frame that starts `s`, whatever its type: the number of bytes
/// from its marker to its end. It is `NotComplete` while a header or a scalar body
/// lacks its terminator, or a container's items do not all start within `s`; it is
/// known, and may exceed the length of `s`, as soon as the headers are there.
#[verifier::opaque]
pub open spec fn frame_span(s: Seq<u8>) -> Result<nat, Flaw>
    decreases s.len(), 1nat,
{
    if s.len() == 0 {
        Err(Flaw::NotComplete)
    } else if s[0] == 42u8 {
        array_span(s)
    } else if s[0] == 126u8 {
        set_span(s)
    } else if s[0] == 37u8 {
        map_span(s)
    } else if s[0] == 36u8 {
        bulk_span(s)
    } else if s[0] == 58u8 {
        scalar_span(s, ":"@)
    } else if s[0] == 43u8 {
        scalar_span(s, "+"@)
    } else if s[0] == 45u8 {
        scalar_span(s, "-"@)
    } else if s[0] == 35u8 {
        scalar_span(s, "#"@)
    } else if s[0] == 44u8 {
        scalar_span(s, ","@)
    } else if s[0] == 95u8 {
        scalar_span(s, "_"@)
    } else {
        Err(Flaw::InvalidFrameType(unknown_marker_text(s)))
    }
}

/// The span of a frame is the span of the type that its leading byte names.
pub proof fn lemma_frame_span_dispatch(s: Seq<u8>)
    ensures
        s.len() == 0 ==> frame_span(s) == Err::<nat, Flaw>(Flaw::NotComplete),
        s.len() > 0 && s[0] == 42u8 ==> frame_span(s) == array_span(s),
        s.len() > 0 && s[0] == 126u8 ==> frame_span(s) == set_span(s),
        s.len() > 0 && s[0] == 37u8 ==> frame_span(s) == map_span(s),
        s.len() > 0 && s[0] == 36u8 ==> frame_span(s) == bulk_span(s),
        s.len() > 0 && s[0] == 58u8 ==> frame_span(s) == scalar_span(s, ":"@),
        s.len() > 0 && s[0] == 43u8 ==> frame_span(s) == scalar_span(s, "+"@),
        s.len() > 0 && s[0] == 45u8 ==> frame_span(s) == scalar_span(s, "-"@),
        s.len() > 0 && s[0] == 35u8 ==> frame_span(s) == scalar_span(s, "#"@),
        s.len() > 0 && s[0] == 44u8 ==> frame_span(s) == scalar_span(s, ","@),
        s.len() > 0 && s[0] == 95u8 ==> frame_span(s) == scalar_span(s, "_"@),
        s.len() > 0 && s[0] != 42u8 && s[0] != 126u8 && s[0] != 37u8 && s[0] != 36u8 && s[0]
            != 58u8 && s[0] != 43u8 && s[0] != 45u8 && s[0] != 35u8 && s[0] != 44u8 && s[0]
            != 95u8 ==> frame_span(s) == Err::<nat, Flaw>(
            Flaw::InvalidFrameType(unknown_marker_text(s)),
        ),
{
    reveal(frame_span);
}

/// The end of some items is the end of the others after the first.
pub proof fn lemma_items_span_unfold(t: Seq<u8>, count: nat, base: nat)
    ensures
        count == 0 ==> items_span(t, count, base) == Ok::<nat, Flaw>(base),
        count > 0 ==> items_span(t, count, base) == match frame_span(t) {
            Err(flaw) => Err::<nat, Flaw>(flaw),
            Ok(n) => if base + n > usize::MAX {
                Err::<nat, Flaw>(Flaw::ParseIntError(IntErrorKind::PosOverflow))
            } else {
                items_span(rest_at(t, n as int), (count - 1) as nat, base + n)
            },
        },
{
    reveal(frame_span);
}

/// The end of some pairs is the end of the others after the first.
pub proof fn lemma_pairs_span_unfold(t: Seq<u8>, count: nat, base: nat)
    ensures
        count == 0 ==> pairs_span(t, count, base) == Ok::<nat, Flaw>(base),
        count > 0 ==> pairs_span(t, count, base) == match pair_span(t) {
            Err(flaw) => Err::<nat, Flaw>(flaw),
            Ok(n) => if base + n > usize::MAX {
                Err::<nat, Flaw>(Flaw::ParseIntError(IntErrorKind::PosOverflow))
            } else {
                pairs_span(rest_at(t, n as int), (count - 1) as nat, base + n)
            },
        },
{
    reveal(frame_span);
}

/// The span of a pair is that of its key and that of its frame.
pub proof fn lemma_pair_span_unfold(t: Seq<u8>)
    ensures
        pair_span(t) == match scalar_span(t, "+"@) {
            Err(flaw) => Err::<nat, Flaw>(flaw),
            Ok(k) => match frame_span(rest_at(t, k as int)) {
                Err(flaw) => Err::<nat, Flaw>(flaw),
                Ok(n) => checked_span((k + n) as int),
            },
        },
{
    reveal(frame_span);
}

/// The span of a container is where its items end after its header.
pub proof fn lemma_container_spans_unfold(s: Seq<u8>)
    ensures
        array_span(s) == match simple_frame_end(s, "*"@) {
            Err(flaw) => Err::<nat, Flaw>(flaw),
            Ok(end) => if is_null_sentinel(header_digits(s, "*"@, end)) {
                Ok::<nat, Flaw>((end + 2) as nat)
            } else {
                match parse_unsigned(header_digits(s, "*"@, end), usize::MAX as int) {
                    Err(kind) => Err::<nat, Flaw>(Flaw::ParseIntError(kind)),
                    Ok(count) => items_span(rest_at(s, end + 2), count as nat, (end + 2) as nat),
                }
            },
        },
        set_span(s) == match length_header(s, "~"@) {
            Err(flaw) => Err::<nat, Flaw>(flaw),
            Ok((end, count)) => items_span(rest_at(s, end + 2), count as nat, (end + 2) as nat),
        },
        map_span(s) == match length_header(s, "%"@) {
            Err(flaw) => Err::<nat, Flaw>(flaw),
            Ok((end, count)) => pairs_span(rest_at(s, end + 2), count as nat, (end + 2) as nat),
        },
{
    reveal(frame_span);
}

/// The total span of a container whose header ends with the terminator at `end` and
/// declares `len` items: of arrays and sets (`*`, `~`) and of maps (`%`), where
/// `len` counts pairs. For any other prefix it is the span of `len` bytes and a
/// terminator.
pub open spec fn total_length(s: Seq<u8>, end: nat, len: nat, prefix: Seq<char>) -> Result<
    nat,
    Flaw,
> {
    if prefix == "*"@ || prefix == "~"@ {
        if end + 2 > usize::MAX {
            Err(Flaw::ParseIntError(IntErrorKind::PosOverflow))
        } else {
            items_span(rest_at(s, (end + 2) as int), len, end + 2)
        }
    } else if prefix == "%"@ {
        if end + 2 > usize::MAX {
            Err(Flaw::ParseIntError(IntErrorKind::PosOverflow))
        } else {
            pairs_span(rest_at(s, (end + 2) as int), len, end + 2)
        }
    } else {
        checked_span((len + 2) as int)
    }
}

/// An exec result says what a span of the model says.
pub open spec fn span_agrees(r: Result<usize, RespDecodeError>, span: Result<nat, Flaw>) -> bool {
    match r {
        Ok(n) => span == Ok::<nat, Flaw>(n as nat),
        Err(e) => span == Err::<nat, Flaw>(e@),
    }
}

/// Skipping twice is skipping once by the sum.
pub proof fn lemma_rest_at_twice(s: Seq<u8>, a: int, b: int)
    requires
        0 <= a,
        0 <= b,
    ensures
        rest_at(rest_at(s, a), b) == rest_at(s, a + b),
{
    if a <= s.len() {
        if b <= s.len() - a {
            assert(s.skip(a).skip(b) =~= s.skip(a + b));
        }
    } else {
        assert(rest_at(s, a).skip(0) =~= rest_at(s, a));
    }
}

/// Builds the diagnostic of an unknown leading byte from the rendering of the bytes
/// found.
pub fn unknown_frame_type(rendered: &str) -> (e: RespDecodeError)
    ensures
        e@ == Flaw::InvalidFrameType("unknown frame type: "@ + rendered@),
{
    let mut text = String::from_str("unknown frame type: ");
    text.append(rendered);
    RespDecodeError::InvalidFrameType(text)
}

/// The slice of `data` from `pos` on, empty where `pos` lies beyond its end.
pub fn slice_from(data: &[u8], pos: usize) -> (rest: &[u8])
    ensures
        rest@ == rest_at(data@, pos as int),
{
    if pos <= data.len() {
        slice_subrange(data, pos, data.len())
    } else {
        slice_subrange(data, 0, 0)
    }
}

/// Two texts are the same.
pub fn same_text(a: &str, b: &str) -> (same: bool)
    ensures
        same == (a@ == b@),
{
    let r = rank(a.as_bytes(), b.as_bytes());
    proof {
        if a.spec_bytes() == b.spec_bytes() {
            lemma_key_bytes_injective(a@, b@);
        }
    }
    r == Rank::Same
}

/// The span of the scalar frame with marker `prefix` that starts `buf`.
pub fn scalar_length(buf: &[u8], prefix: &str) -> (r: Result<usize, RespDecodeError>)
    ensures
        span_agrees(r, scalar_span(buf@, prefix@)),
        r matches Ok(n) ==> 3 <= n <= buf@.len(),
{
    let end = extract_simple_frame_data(buf, prefix)?;
    Ok(end + CRLF_LEN)
}

/// Whether a header field is the `-1` of the null forms.
fn is_sentinel(field: &[u8]) -> (yes: bool)
    ensures
        yes == is_null_sentinel(field@),
{
    let yes = field.len() == 2 && field[0] == 45 && field[1] == 49;
    proof {
        if yes {
            assert(field@ =~= seq![45u8, 49u8]);
        }
    }
    yes
}

/// The span of the bulk string, or the null bulk string, that starts `buf`.
pub fn bulk_length(buf: &[u8]) -> (r: Result<usize, RespDecodeError>)
    ensures
        span_agrees(r, bulk_span(buf@)),
{
    let end = extract_simple_frame_data(buf, "$")?;
    let field = header_field(buf, "$", end);
    if is_sentinel(field) {
        return Ok(end + 2);
    }
    match read_usize(field) {
        Err(kind) => Err(RespDecodeError::ParseIntError(kind)),
        Ok(len) => {
            if end > usize::MAX - 4 || len > usize::MAX - 4 - end {
                Err(RespDecodeError::ParseIntError(IntErrorKind::PosOverflow))
            } else {
                Ok(end + 4 + len)
            }
        },
    }
}

/// Where `count` frames end that follow one another in `data` from `start` on.
fn items_length(data: &[u8], start: usize, count: usize) -> (r: Result<usize, RespDecodeError>)
    requires
        1 <= start,
    ensures
        span_agrees(r, items_span(rest_at(data@, start as int), count as nat, start as nat)),
    decreases data@.len(), 1nat,
{
    let mut pos: usize = start;
    let mut i: usize = 0;
    while i < count
        invariant
            1 <= start <= pos,
            i <= count,
            items_span(rest_at(data@, start as int), count as nat, start as nat) == items_span(
                rest_at(data@, pos as int),
                (count - i) as nat,
                pos as nat,
            ),
        decreases count - i,
    {
        proof {
            lemma_items_span_unfold(rest_at(data@, pos as int), (count - i) as nat, pos as nat);
            lemma_frame_span_dispatch(rest_at(data@, pos as int));
        }
        if pos >= data.len() {
            return Err(RespDecodeError::NotComplete);
        }
        let rest = slice_from(data, pos);
        match frame_length(rest) {
            Err(e) => {
                return Err(e);
            },
            Ok(n) => {
                if n > usize::MAX - pos {
                    return Err(RespDecodeError::ParseIntError(IntErrorKind::PosOverflow));
                }
                proof {
                    lemma_rest_at_twice(data@, pos as int, n as int);
                }
                pos = pos + n;
                i = i + 1;
            },
        }
    }
    Ok(pos)
}

/// The span of the pair of a key and a value that starts `data`.
fn pair_length(data: &[u8]) -> (r: Result<usize, RespDecodeError>)
    requires
        data@.len() > 0,
    ensures
        span_agrees(r, pair_span(data@)),
    decreases data@.len(), 0nat,
{
    proof {
        lemma_pair_span_unfold(data@);
    }
    let key_span = scalar_length(data, "+")?;
    proof {
        lemma_frame_span_dispatch(rest_at(data@, key_span as int));
    }
    if key_span >= data.len() {
        return Err(RespDecodeError::NotComplete);
    }
    let value_span = frame_length(slice_from(data, key_span))?;
    if value_span > usize::MAX - key_span {
        return Err(RespDecodeError::ParseIntError(IntErrorKind::PosOverflow));
    }
    Ok(key_span + value_span)
}

/// Where `count` pairs of a key and a value end that follow one another in `data`
/// from `start` on.
fn pairs_length(data: &[u8], start: usize, count: usize) -> (r: Result<usize, RespDecodeError>)
    requires
        1 <= start,
    ensures
        span_agrees(r, pairs_span(rest_at(data@, start as int), count as nat, start as nat)),
    decreases data@.len(), 1nat,
{
    let mut pos: usize = start;
    let mut i: usize = 0;
    while i < count
        invariant
            1 <= start <= pos,
            i <= count,
            pairs_span(rest_at(data@, start as int), count as nat, start as nat) == pairs_span(
                rest_at(data@, pos as int),
                (count - i) as nat,
                pos as nat,
            ),
        decreases count - i,
    {
        proof {
            lemma_pairs_span_unfold(rest_at(data@, pos as int), (count - i) as nat, pos as nat);
            lemma_pair_span_unfold(rest_at(data@, pos as int));
        }
        if pos >= data.len() {
            return Err(RespDecodeError::NotComplete);
        }
        match pair_length(slice_from(data, pos)) {
            Err(e) => {
                return Err(e);
            },
            Ok(n) => {
                if n > usize::MAX - pos {
                    return Err(RespDecodeError::ParseIntError(IntErrorKind::PosOverflow));
                }
                proof {
                    lemma_rest_at_twice(data@, pos as int, n as int);
                }
                pos = pos + n;
                i = i + 1;
            },
        }
    }
    Ok(pos)
}

/// Computes the total span of a container from its parsed header: `end` is where the
/// header's terminator starts, `len` the number of items that it declares, and
/// `prefix` its marker.
pub fn calc_total_length(buf: &[u8], end: usize, len: usize, prefix: &str) -> (r: Result<
    usize,
    RespDecodeError,
>)
    ensures
        span_agrees(r, total_length(buf@, end as nat, len as nat, prefix@)),
    decreases buf@.len(), 2nat,
{
    if same_text(prefix, "*") || same_text(prefix, "~") {
        if end > usize::MAX - 2 {
            return Err(RespDecodeError::ParseIntError(IntErrorKind::PosOverflow));
        }
        items_length(buf, end + 2, len)
    } else if same_text(prefix, "%") {
        if end > usize::MAX - 2 {
            return Err(RespDecodeError::ParseIntError(IntErrorKind::PosOverflow));
        }
        pairs_length(buf, end + 2, len)
    } else {
        if len > usize::MAX - 2 {
            Err(RespDecodeError::ParseIntError(IntErrorKind::PosOverflow))
        } else {
            Ok(len + 2)
        }
    }
}

/// The span of the array, or the null array, that starts `buf`.
pub fn array_length(buf: &[u8]) -> (r: Result<usize, RespDecodeError>)
    ensures
        span_agrees(r, array_span(buf@)),
    decreases buf@.len(), 3nat,
{
    proof {
        lemma_container_spans_unfold(buf@);
    }
    let end = extract_simple_frame_data(buf, "*")?;
    let field = header_field(buf, "*", end);
    if is_sentinel(field) {
        return Ok(end + 2);
    }
    match read_usize(field) {
        Err(kind) => Err(RespDecodeError::ParseIntError(kind)),
        Ok(count) => calc_total_length(buf, end, count, "*"),
    }
}

/// The span of the set that starts `buf`.
pub fn set_length(buf: &[u8]) -> (r: Result<usize, RespDecodeError>)
    ensures
        span_agrees(r, set_span(buf@)),
    decreases buf@.len(), 3nat,
{
    proof {
        lemma_container_spans_unfold(buf@);
    }
    let (end, count) = parse_length(buf, "~")?;
    calc_total_length(buf, end, count, "~")
}

/// The span of the map that starts `buf`.
pub fn map_length(buf: &[u8]) -> (r: Result<usize, RespDecodeError>)
    ensures
        span_agrees(r, map_span(buf@)),
    decreases buf@.len(), 3nat,
{
    proof {
        lemma_container_spans_unfold(buf@);
    }
    let (end, count) = parse_length(buf, "%")?;
    proof {
        reveal_strlit("%");
        reveal_strlit("*");
        reveal_strlit("~");
    }
    calc_total_length(buf, end, count, "%")
}

/// The span of the frame that starts `buf`, whatever its type.
pub fn frame_length(buf: &[u8]) -> (r: Result<usize, RespDecodeError>)
    ensures
        span_agrees(r, frame_span(buf@)),
    decreases buf@.len(), 4nat,
{
    proof {
        lemma_frame_span_dispatch(buf@);
    }
    if buf.len() == 0 {
        return Err(RespDecodeError::NotComplete);
    }
    let marker = buf[0];
    if marker == 42 {
        array_length(buf)
    } else if marker == 126 {
        set_length(buf)
    } else if marker == 37 {
        map_length(buf)
    } else if marker == 36 {
        bulk_length(buf)
    } else if marker == 58 {
        scalar_length(buf, ":")
    } else if marker == 43 {
        scalar_length(buf, "+")
    } else if marker == 45 {
        scalar_length(buf, "-")
    } else if marker == 35 {
        scalar_length(buf, "#")
    } else if marker == 44 {
        scalar_length(buf, ",")
    } else if marker == 95 {
        scalar_length(buf, "_")
    } else {
        let rendered = render_escaped(buf);
        Err(unknown_frame_type(rendered.as_str()))
    }
}

} // verus!
