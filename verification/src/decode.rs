//! The decoder: what a run of bytes means as a frame, and the functions that read
//! one frame from the front of a slice or of a buffer.

use bytes::BytesMut;
use crate::buffer::buffer_advance;
use crate::buffer::buffer_bytes;
use crate::buffer::buffered;
use crate::decimal::parse_signed;
use crate::decimal::read_i64;
use crate::double::check_float;
use crate::double::float_check;
use crate::error::Flaw;
use crate::error::RespDecodeError;
use crate::frame::collect_entries;
use crate::frame::frames_view;
use crate::frame::BulkString;
use crate::frame::Entries;
use crate::frame::Frame;
use crate::frame::RespArray;
use crate::frame::RespDouble;
use crate::frame::RespFrame;
use crate::frame::RespMap;
use crate::frame::RespNull;
use crate::frame::RespNullArray;
use crate::frame::RespNullBulkString;
use crate::frame::RespSet;
use crate::frame::SimpleError;
use crate::frame::SimpleString;
use crate::length::array_length;
use crate::length::array_span;
use crate::length::bulk_length;
use crate::length::bulk_span;
use crate::length::frame_length;
use crate::length::frame_span;
use crate::length::scalar_length;
use crate::length::scalar_span;
use crate::length::span_agrees;
use crate::length::lemma_rest_at_twice;
use crate::length::map_length;
use crate::length::map_span;
use crate::length::rest_at;
use crate::length::set_length;
use crate::length::set_span;
use crate::length::slice_from;
use crate::length::unknown_frame_type;
use crate::length::unknown_marker_text;
use crate::scan::extract_simple_frame_data;
use crate::scan::lemma_first_crlf;
use crate::scan::length_header;
use crate::scan::parse_length;
use crate::scan::simple_frame_end;
use crate::scan::starts_with;
use crate::text::body_text;
use crate::text::escaped_text;
use crate::text::read_lossy;
use crate::text::render_escaped;
use vstd::prelude::*;
use vstd::slice::slice_subrange;
use vstd::slice::slice_to_vec;
use vstd::string::StringSliceAdditionalSpecFns;
use vstd::utf8::encode_utf8;

verus! {

/// What a run of bytes means as a value of some type: the value and the number of
/// bytes that it occupies, or the reason why there is none.
pub type Parsed<T> = Result<(T, nat), Flaw>;

/// What a literal that is not there reports: the name of the type wanted and the
/// bytes found.
pub open spec fn literal_mismatch_text(name: Seq<char>, s: Seq<u8>) -> Seq<char> {
    "except: "@ + name + ", got:"@ + escaped_text(s)
}

/// Whether `s` starts with the literal `expected`, and if so with how many bytes.
/// A single byte decides nothing; bytes that are a proper beginning of the literal
/// are `NotComplete`; any others are not a frame of the type `name`.
pub open spec fn probe(s: Seq<u8>, expected: Seq<char>, name: Seq<char>) -> Result<nat, Flaw> {
    let token = encode_utf8(expected);
    if s.len() < 2 {
        Err(Flaw::NotComplete)
    } else if token.is_prefix_of(s) {
        Ok(token.len())
    } else if s.is_prefix_of(token) {
        Err(Flaw::NotComplete)
    } else {
        Err(Flaw::InvalidFrameType(literal_mismatch_text(name, s)))
    }
}

/// The simple string that starts `s`: the text between the marker `+` and the first
/// terminator.
pub open spec fn parse_simple_string(s: Seq<u8>) -> Parsed<Seq<char>> {
    match simple_frame_end(s, "+"@) {
        Err(flaw) => Err(flaw),
        Ok(end) => Ok((body_text(s.subrange(1, end)), (end + 2) as nat)),
    }
}

/// The simple error that starts `s`: the text between the marker `-` and the first
/// terminator.
pub open spec fn parse_simple_error(s: Seq<u8>) -> Parsed<Seq<char>> {
    match simple_frame_end(s, "-"@) {
        Err(flaw) => Err(flaw),
        Ok(end) => Ok((body_text(s.subrange(1, end)), (end + 2) as nat)),
    }
}

/// The integer that starts `s`: the decimal number between the marker `:` and the
/// first terminator.
pub open spec fn parse_integer(s: Seq<u8>) -> Parsed<i64> {
    match simple_frame_end(s, ":"@) {
        Err(flaw) => Err(flaw),
        Ok(end) => match parse_signed(s.subrange(1, end), i64::MIN as int, i64::MAX as int) {
            Err(kind) => Err(Flaw::ParseIntError(kind)),
            Ok(v) => Ok((v as i64, (end + 2) as nat)),
        },
    }
}

/// The double that starts `s`: the floating-point literal between the marker `,` and
/// the first terminator.
pub open spec fn parse_double(s: Seq<u8>) -> Parsed<Seq<char>> {
    match simple_frame_end(s, ","@) {
        Err(flaw) => Err(flaw),
        Ok(end) => match float_check(s.subrange(1, end)) {
            Err(kind) => Err(Flaw::ParseFloatError(kind)),
            Ok(_) => Ok((body_text(s.subrange(1, end)), (end + 2) as nat)),
        },
    }
}

/// The boolean that starts `s`: one of the two literals `#t` and `#f` with their
/// terminator. Bytes that are a proper beginning of either are `NotComplete`.
pub open spec fn parse_bool(s: Seq<u8>) -> Parsed<bool> {
    match probe(s, "#t\r\n"@, "Bool"@) {
        Ok(n) => Ok((true, n)),
        Err(first) => match probe(s, "#f\r\n"@, "Bool"@) {
            Ok(n) => Ok((false, n)),
            Err(second) => if first is NotComplete {
                Err(Flaw::NotComplete)
            } else {
                Err(second)
            },
        },
    }
}

/// The null that starts `s`.
pub open spec fn parse_null(s: Seq<u8>) -> Parsed<()> {
    match probe(s, "_\r\n"@, "Null"@) {
        Ok(n) => Ok(((), n)),
        Err(flaw) => Err(flaw),
    }
}

/// The null array that starts `s`.
pub open spec fn parse_null_array(s: Seq<u8>) -> Parsed<()> {
    match probe(s, "*-1\r\n"@, "RespNullArray"@) {
        Ok(n) => Ok(((), n)),
        Err(flaw) => Err(flaw),
    }
}

/// The null bulk string that starts `s`.
pub open spec fn parse_null_bulk_string(s: Seq<u8>) -> Parsed<()> {
    match probe(s, "$-1\r\n"@, "RespNullBulkString"@) {
        Ok(n) => Ok(((), n)),
        Err(flaw) => Err(flaw),
    }
}

/// The bulk string that starts `s`: after the header as many bytes as it declares,
/// once all of them and the two bytes of a terminator are there.
pub open spec fn parse_bulk_string(s: Seq<u8>) -> Parsed<Seq<u8>> {
    match length_header(s, "$"@) {
        Err(flaw) => Err(flaw),
        Ok((end, len)) => match bulk_span(s) {
            Err(flaw) => Err(flaw),
            Ok(total) => if s.len() < total {
                Err(Flaw::NotComplete)
            } else {
                Ok((s.subrange(end + 2, end + 2 + len), total))
            },
        },
    }
}

/// The `count` frames that follow one another from the start of `t`.
pub open spec fn parse_items(t: Seq<u8>, count: nat) -> Parsed<Seq<Frame>>
    decreases t.len(), count + 3,
{
    if count == 0 {
        Ok((Seq::empty(), 0))
    } else {
        match parse_frame(t) {
            Err(flaw) => Err(flaw),
            Ok((first, n)) => match parse_items(rest_at(t, n as int), (count - 1) as nat) {
                Err(flaw) => Err(flaw),
                Ok((others, m)) => Ok((seq![first] + others, n + m)),
            },
        }
    }
}

/// The pair that starts `t`: a simple string as the key, and then a frame.
pub open spec fn parse_pair(t: Seq<u8>) -> Parsed<(Seq<char>, Frame)>
    decreases t.len(), 2nat,
{
    match parse_simple_string(t) {
        Err(flaw) => Err(flaw),
        Ok((key, k)) => match parse_frame(rest_at(t, k as int)) {
            Err(flaw) => Err(flaw),
            Ok((value, n)) => Ok(((key, value), k + n)),
        },
    }
}

/// The `count` pairs that follow one another from the start of `t`, in the order in
/// which they stand there.
pub open spec fn parse_pairs(t: Seq<u8>, count: nat) -> Parsed<Entries>
    decreases t.len(), count + 3,
{
    if count == 0 {
        Ok((Seq::empty(), 0))
    } else {
        match parse_pair(t) {
            Err(flaw) => Err(flaw),
            Ok((first, n)) => match parse_pairs(rest_at(t, n as int), (count - 1) as nat) {
                Err(flaw) => Err(flaw),
                Ok((others, m)) => Ok((seq![first] + others, n + m)),
            },
        }
    }
}

/// The array that starts `s`: its items, once the whole span that the length oracle
/// finds for it lies within `s`.
pub open spec fn parse_array(s: Seq<u8>) -> Parsed<Seq<Frame>>
    decreases s.len(), 0nat,
{
    match length_header(s, "*"@) {
        Err(flaw) => Err(flaw),
        Ok((end, count)) => match array_span(s) {
            Err(flaw) => Err(flaw),
            Ok(total) => if s.len() < total {
                Err(Flaw::NotComplete)
            } else {
                proof {
                    lemma_first_crlf(s, 1);
                }
                match parse_items(rest_at(s, end + 2), count as nat) {
                    Err(flaw) => Err(flaw),
                    Ok((items, n)) => Ok((items, (end + 2 + n) as nat)),
                }
            },
        },
    }
}

/// The set that starts `s`: its items in the order in which they stand, once the
/// whole span that the length oracle finds for it lies within `s`.
pub open spec fn parse_set(s: Seq<u8>) -> Parsed<Seq<Frame>>
    decreases s.len(), 0nat,
{
    match length_header(s, "~"@) {
        Err(flaw) => Err(flaw),
        Ok((end, count)) => match set_span(s) {
            Err(flaw) => Err(flaw),
            Ok(total) => if s.len() < total {
                Err(Flaw::NotComplete)
            } else {
                proof {
                    lemma_first_crlf(s, 1);
                }
                match parse_items(rest_at(s, end + 2), count as nat) {
                    Err(flaw) => Err(flaw),
                    Ok((items, n)) => Ok((items, (end + 2 + n) as nat)),
                }
            },
        },
    }
}

/// The map that starts `s`: its pairs put into a map one after the other, once the
/// whole span that the length oracle finds for it lies within `s`.
pub open spec fn parse_map(s: Seq<u8>) -> Parsed<Entries>
    decreases s.len(), 0nat,
{
    match length_header(s, "%"@) {
        Err(flaw) => Err(flaw),
        Ok((end, count)) => match map_span(s) {
            Err(flaw) => Err(flaw),
            Ok(total) => if s.len() < total {
                Err(Flaw::NotComplete)
            } else {
                proof {
                    lemma_first_crlf(s, 1);
                }
                match parse_pairs(rest_at(s, end + 2), count as nat) {
                    Err(flaw) => Err(flaw),
                    Ok((pairs, n)) => Ok((collect_entries(pairs), (end + 2 + n) as nat)),
                }
            },
        },
    }
}

/// The frame that starts `s`, whatever its type. The leading byte decides the type.
/// After `$` and `*` the null form is tried first, and the general form only where
/// the bytes are certainly not the null form.
#[verifier::opaque]
pub open spec fn parse_frame(s: Seq<u8>) -> Parsed<Frame>
    decreases s.len(), 1nat,
{
    if s.len() == 0 {
        Err(Flaw::NotComplete)
    } else if s[0] == 43u8 {
        match parse_simple_string(s) {
            Ok((text, n)) => Ok((Frame::SimpleString(text), n)),
            Err(flaw) => Err(flaw),
        }
    } else if s[0] == 45u8 {
        match parse_simple_error(s) {
            Ok((text, n)) => Ok((Frame::Error(text), n)),
            Err(flaw) => Err(flaw),
        }
    } else if s[0] == 58u8 {
        match parse_integer(s) {
            Ok((v, n)) => Ok((Frame::Integer(v), n)),
            Err(flaw) => Err(flaw),
        }
    } else if s[0] == 36u8 {
        match parse_null_bulk_string(s) {
            Ok((_, n)) => Ok((Frame::NullBulkString, n)),
            Err(Flaw::NotComplete) => Err(Flaw::NotComplete),
            Err(_) => match parse_bulk_string(s) {
                Ok((bytes, n)) => Ok((Frame::BulkString(bytes), n)),
                Err(flaw) => Err(flaw),
            },
        }
    } else if s[0] == 42u8 {
        match parse_null_array(s) {
            Ok((_, n)) => Ok((Frame::NullArray, n)),
            Err(Flaw::NotComplete) => Err(Flaw::NotComplete),
            Err(_) => match parse_array(s) {
                Ok((items, n)) => Ok((Frame::Array(items), n)),
                Err(flaw) => Err(flaw),
            },
        }
    } else if s[0] == 95u8 {
        match parse_null(s) {
            Ok((_, n)) => Ok((Frame::Null, n)),
            Err(flaw) => Err(flaw),
        }
    } else if s[0] == 35u8 {
        match parse_bool(s) {
            Ok((b, n)) => Ok((Frame::Boolean(b), n)),
            Err(flaw) => Err(flaw),
        }
    } else if s[0] == 44u8 {
        match parse_double(s) {
            Ok((text, n)) => Ok((Frame::Double(text), n)),
            Err(flaw) => Err(flaw),
        }
    } else if s[0] == 37u8 {
        match parse_map(s) {
            Ok((entries, n)) => Ok((Frame::RespMap(entries), n)),
            Err(flaw) => Err(flaw),
        }
    } else if s[0] == 126u8 {
        match parse_set(s) {
            Ok((items, n)) => Ok((Frame::RespSet(items), n)),
            Err(flaw) => Err(flaw),
        }
    } else {
        Err(Flaw::InvalidFrameType(unknown_marker_text(s)))
    }
}

/// An exec result says what a parse of the model says, and has consumed no more
/// than there is.
pub open spec fn parse_agrees<T: View>(
    r: Result<(T, usize), RespDecodeError>,
    parsed: Parsed<T::V>,
    len: nat,
) -> bool {
    match r {
        Ok((v, n)) => parsed == Ok::<(T::V, nat), Flaw>((v@, n as nat)) && n <= len,
        Err(e) => parsed == Err::<(T::V, nat), Flaw>(e@),
    }
}

/// The parse of some items, continued by the parse of the items after them.
pub open spec fn items_after(done: Seq<Frame>, used: nat, rest: Parsed<Seq<Frame>>) -> Parsed<
    Seq<Frame>,
> {
    match rest {
        Err(flaw) => Err(flaw),
        Ok((others, m)) => Ok((done + others, used + m)),
    }
}

/// The parse of some pairs, continued by the parse of the pairs after them.
pub open spec fn pairs_after(done: Entries, used: nat, rest: Parsed<Entries>) -> Parsed<Entries> {
    match rest {
        Err(flaw) => Err(flaw),
        Ok((others, m)) => Ok((done + others, used + m)),
    }
}

/// Parsing items one by one from the front gives what parsing them all gives.
proof fn lemma_items_step(done: Seq<Frame>, used: nat, t: Seq<u8>, count: nat)
    requires
        count > 0,
    ensures
        match parse_frame(t) {
            Err(flaw) => items_after(done, used, parse_items(t, count)) == Err::<
                (Seq<Frame>, nat),
                Flaw,
            >(flaw),
            Ok((first, n)) => items_after(done, used, parse_items(t, count)) == items_after(
                done.push(first),
                used + n,
                parse_items(rest_at(t, n as int), (count - 1) as nat),
            ),
        },
{
    reveal(parse_frame);
    match parse_frame(t) {
        Err(flaw) => {},
        Ok((first, n)) => {
            match parse_items(rest_at(t, n as int), (count - 1) as nat) {
                Err(flaw) => {},
                Ok((others, m)) => {
                    assert(done + (seq![first] + others) =~= done.push(first) + others);
                },
            }
        },
    }
}

/// Parsing pairs one by one from the front gives what parsing them all gives.
proof fn lemma_pairs_step(done: Entries, used: nat, t: Seq<u8>, count: nat)
    requires
        count > 0,
    ensures
        match parse_pair(t) {
            Err(flaw) => pairs_after(done, used, parse_pairs(t, count)) == Err::<(Entries, nat), Flaw>(
                flaw,
            ),
            Ok((first, n)) => pairs_after(done, used, parse_pairs(t, count)) == pairs_after(
                done.push(first),
                used + n,
                parse_pairs(rest_at(t, n as int), (count - 1) as nat),
            ),
        },
{
    reveal(parse_frame);
    match parse_pair(t) {
        Err(flaw) => {},
        Ok((first, n)) => {
            match parse_pairs(rest_at(t, n as int), (count - 1) as nat) {
                Err(flaw) => {},
                Ok((others, m)) => {
                    assert(done + (seq![first] + others) =~= done.push(first) + others);
                },
            }
        },
    }
}

/// A pair is a key and then a frame.
pub proof fn lemma_pair_unfold(t: Seq<u8>)
    ensures
        parse_pair(t) == match parse_simple_string(t) {
            Err(flaw) => Err::<((Seq<char>, Frame), nat), Flaw>(flaw),
            Ok((key, k)) => match parse_frame(rest_at(t, k as int)) {
                Err(flaw) => Err::<((Seq<char>, Frame), nat), Flaw>(flaw),
                Ok((value, n)) => Ok::<((Seq<char>, Frame), nat), Flaw>(((key, value), k + n)),
            },
        },
{
    reveal(parse_frame);
}

/// Nothing at all is `NotComplete`.
pub proof fn lemma_parse_nothing(s: Seq<u8>)
    requires
        s.len() == 0,
    ensures
        parse_frame(s) == Err::<(Frame, nat), Flaw>(Flaw::NotComplete),
{
    reveal(parse_frame);
}

/// The header field of the null forms is no number.
proof fn lemma_sentinel_is_no_number(digits: Seq<u8>)
    requires
        crate::length::is_null_sentinel(digits),
    ensures
        crate::decimal::parse_unsigned(digits, usize::MAX as int) is Err,
{
    assert(!crate::decimal::is_digit(digits[0]));
}

/// Builds the diagnostic of a literal that is not there from the rendering of the
/// bytes found.
pub fn literal_mismatch(data_type: &str, rendered: &str) -> (e: RespDecodeError)
    ensures
        e@ == Flaw::InvalidFrameType("except: "@ + data_type@ + ", got:"@ + rendered@),
{
    let mut text = String::from_str("except: ");
    text.append(data_type);
    text.append(", got:");
    text.append(rendered);
    RespDecodeError::InvalidFrameType(text)
}

/// Looks for the literal `expected` at the start of `data` and returns its length.
pub fn probe_literal(data: &[u8], expected: &str, data_type: &str) -> (r: Result<
    usize,
    RespDecodeError,
>)
    ensures
        match r {
            Ok(n) => probe(data@, expected@, data_type@) == Ok::<nat, Flaw>(n as nat) && n
                <= data@.len(),
            Err(e) => probe(data@, expected@, data_type@) == Err::<nat, Flaw>(e@),
        },
{
    if data.len() < 2 {
        return Err(RespDecodeError::NotComplete);
    }
    let token = expected.as_bytes();
    if starts_with(data, token) {
        Ok(token.len())
    } else if starts_with(token, data) {
        Err(RespDecodeError::NotComplete)
    } else {
        let rendered = render_escaped(data);
        Err(literal_mismatch(data_type, rendered.as_str()))
    }
}

/// Takes the literal `expected` from the front of `buf` and returns its length. A
/// buffer that does not start with it is left as it is.
pub fn extract_fixed_data(buf: &mut BytesMut, expected: &str, data_type: &str) -> (r: Result<
    usize,
    RespDecodeError,
>)
    ensures
        match probe(buffered(old(buf)), expected@, data_type@) {
            Ok(n) => r == Ok::<usize, RespDecodeError>(n as usize) && buffered(final(buf))
                == buffered(old(buf)).skip(n as int),
            Err(flaw) => r matches Err(e) && e@ == flaw && buffered(final(buf)) == buffered(
                old(buf),
            ),
        },
{
    match probe_literal(buffer_bytes(buf), expected, data_type) {
        Ok(n) => {
            buffer_advance(buf, n);
            Ok(n)
        },
        Err(e) => Err(e),
    }
}

/// Reads the simple string at the start of `data`.
pub fn decode_simple_string(data: &[u8]) -> (r: Result<(SimpleString, usize), RespDecodeError>)
    ensures
        parse_agrees::<SimpleString>(r, parse_simple_string(data@), data@.len()),
        r matches Ok((_, n)) ==> 3 <= n,
{
    let end = extract_simple_frame_data(data, "+")?;
    let text = read_lossy(slice_subrange(data, 1, end));
    Ok((SimpleString::new(text), end + 2))
}

/// Reads the simple error at the start of `data`.
pub fn decode_simple_error(data: &[u8]) -> (r: Result<(SimpleError, usize), RespDecodeError>)
    ensures
        parse_agrees::<SimpleError>(r, parse_simple_error(data@), data@.len()),
{
    let end = extract_simple_frame_data(data, "-")?;
    let text = read_lossy(slice_subrange(data, 1, end));
    Ok((SimpleError::new(text), end + 2))
}

/// Reads the integer at the start of `data`.
pub fn decode_integer(data: &[u8]) -> (r: Result<(i64, usize), RespDecodeError>)
    ensures
        parse_agrees::<i64>(r, parse_integer(data@), data@.len()),
{
    let end = extract_simple_frame_data(data, ":")?;
    match read_i64(slice_subrange(data, 1, end)) {
        Ok(v) => Ok((v, end + 2)),
        Err(kind) => Err(RespDecodeError::ParseIntError(kind)),
    }
}

/// Reads the double at the start of `data`.
pub fn decode_double(data: &[u8]) -> (r: Result<(RespDouble, usize), RespDecodeError>)
    ensures
        parse_agrees::<RespDouble>(r, parse_double(data@), data@.len()),
{
    let end = extract_simple_frame_data(data, ",")?;
    let body = slice_subrange(data, 1, end);
    match check_float(body) {
        Ok(_) => Ok((RespDouble::new(read_lossy(body)), end + 2)),
        Err(kind) => Err(RespDecodeError::ParseFloatError(kind)),
    }
}

/// Reads the boolean at the start of `data`.
pub fn decode_bool(data: &[u8]) -> (r: Result<(bool, usize), RespDecodeError>)
    ensures
        parse_agrees::<bool>(r, parse_bool(data@), data@.len()),
{
    match probe_literal(data, "#t\r\n", "Bool") {
        Ok(n) => Ok((true, n)),
        Err(first) => match probe_literal(data, "#f\r\n", "Bool") {
            Ok(n) => Ok((false, n)),
            Err(second) => match first {
                RespDecodeError::NotComplete => Err(RespDecodeError::NotComplete),
                _ => Err(second),
            },
        },
    }
}

/// Reads the null at the start of `data`.
pub fn decode_null(data: &[u8]) -> (r: Result<(RespNull, usize), RespDecodeError>)
    ensures
        parse_agrees::<RespNull>(r, parse_null(data@), data@.len()),
{
    match probe_literal(data, "_\r\n", "Null") {
        Ok(n) => Ok((RespNull, n)),
        Err(e) => Err(e),
    }
}

/// Reads the null array at the start of `data`.
pub fn decode_null_array(data: &[u8]) -> (r: Result<(RespNullArray, usize), RespDecodeError>)
    ensures
        parse_agrees::<RespNullArray>(r, parse_null_array(data@), data@.len()),
{
    match probe_literal(data, "*-1\r\n", "RespNullArray") {
        Ok(n) => Ok((RespNullArray, n)),
        Err(e) => Err(e),
    }
}

/// Reads the null bulk string at the start of `data`.
pub fn decode_null_bulk_string(data: &[u8]) -> (r: Result<
    (RespNullBulkString, usize),
    RespDecodeError,
>)
    ensures
        parse_agrees::<RespNullBulkString>(r, parse_null_bulk_string(data@), data@.len()),
{
    match probe_literal(data, "$-1\r\n", "RespNullBulkString") {
        Ok(n) => Ok((RespNullBulkString, n)),
        Err(e) => Err(e),
    }
}

/// Reads the bulk string at the start of `data`.
pub fn decode_bulk_string(data: &[u8]) -> (r: Result<(BulkString, usize), RespDecodeError>)
    ensures
        parse_agrees::<BulkString>(r, parse_bulk_string(data@), data@.len()),
{
    let (end, len) = parse_length(data, "$")?;
    proof {
        if crate::length::is_null_sentinel(crate::scan::header_digits(data@, "$"@, end as int)) {
            lemma_sentinel_is_no_number(crate::scan::header_digits(data@, "$"@, end as int));
        }
    }
    let total = bulk_length(data)?;
    if data.len() < total {
        return Err(RespDecodeError::NotComplete);
    }
    let payload = slice_to_vec(slice_subrange(data, end + 2, end + 2 + len));
    Ok((BulkString::new(payload), total))
}

/// Reads `count` frames that follow one another in `data` from `start` on, and
/// returns them with the index at which the last one ends.
fn decode_items(data: &[u8], start: usize, count: usize) -> (r: Result<
    (Vec<RespFrame>, usize),
    RespDecodeError,
>)
    requires
        1 <= start <= data@.len(),
    ensures
        match parse_items(rest_at(data@, start as int), count as nat) {
            Ok((items, n)) => r matches Ok((frames, end)) && frames_view(frames@) == items && end
                == start + n && end <= data@.len(),
            Err(flaw) => r matches Err(e) && e@ == flaw,
        },
    decreases data@.len(), 1nat,
{
    let ghost whole = parse_items(rest_at(data@, start as int), count as nat);
    let mut frames: Vec<RespFrame> = Vec::new();
    let mut pos: usize = start;
    let mut i: usize = 0;
    assert(frames_view(frames@) =~= Seq::<Frame>::empty());
    proof {
        match whole {
            Ok((items, n)) => {
                assert(Seq::<Frame>::empty() + items =~= items);
            },
            Err(_) => {},
        }
    }
    while i < count
        invariant
            1 <= start <= pos <= data@.len(),
            i <= count,
            whole == parse_items(rest_at(data@, start as int), count as nat),
            whole == items_after(
                frames_view(frames@),
                (pos - start) as nat,
                parse_items(rest_at(data@, pos as int), (count - i) as nat),
            ),
        decreases count - i,
    {
        proof {
            lemma_items_step(
                frames_view(frames@),
                (pos - start) as nat,
                rest_at(data@, pos as int),
                (count - i) as nat,
            );
            if pos >= data@.len() {
                lemma_parse_nothing(rest_at(data@, pos as int));
            }
        }
        if pos >= data.len() {
            return Err(RespDecodeError::NotComplete);
        }
        match decode_frame(slice_from(data, pos)) {
            Err(e) => {
                return Err(e);
            },
            Ok((frame, n)) => {
                proof {
                    lemma_rest_at_twice(data@, pos as int, n as int);
                    assert(frames_view(frames@.push(frame)) =~= frames_view(frames@).push(frame@));
                }
                frames.push(frame);
                pos = pos + n;
                i = i + 1;
            },
        }
    }
    proof {
        assert(frames_view(frames@) + Seq::<Frame>::empty() =~= frames_view(frames@));
    }
    Ok((frames, pos))
}

/// Reads the pair of a key and a value at the start of `data`.
fn decode_pair(data: &[u8]) -> (r: Result<(SimpleString, RespFrame, usize), RespDecodeError>)
    requires
        data@.len() > 0,
    ensures
        match parse_pair(data@) {
            Ok((pair, n)) => r matches Ok((key, value, used)) && key@ == pair.0 && value@ == pair.1
                && used == n && used <= data@.len(),
            Err(flaw) => r matches Err(e) && e@ == flaw,
        },
    decreases data@.len(), 0nat,
{
    proof {
        lemma_pair_unfold(data@);
    }
    let (key, key_span) = match decode_simple_string(data) {
        Err(e) => {
            return Err(e);
        },
        Ok(found) => found,
    };
    if key_span >= data.len() {
        proof {
            lemma_parse_nothing(rest_at(data@, key_span as int));
        }
        return Err(RespDecodeError::NotComplete);
    }
    match decode_frame(slice_from(data, key_span)) {
        Err(e) => Err(e),
        Ok((value, value_span)) => Ok((key, value, key_span + value_span)),
    }
}

/// Reads `count` pairs that follow one another in `data` from `start` on, puts them
/// into a map one after the other, and returns it with the index at which the last
/// pair ends.
fn decode_pairs(data: &[u8], start: usize, count: usize) -> (r: Result<
    (RespMap, usize),
    RespDecodeError,
>)
    requires
        1 <= start <= data@.len(),
    ensures
        match parse_pairs(rest_at(data@, start as int), count as nat) {
            Ok((pairs, n)) => r matches Ok((map, end)) && map@ == collect_entries(pairs) && end
                == start + n && end <= data@.len(),
            Err(flaw) => r matches Err(e) && e@ == flaw,
        },
    decreases data@.len(), 1nat,
{
    let ghost whole = parse_pairs(rest_at(data@, start as int), count as nat);
    let ghost mut done: Entries = Seq::empty();
    let mut map = RespMap::new();
    let mut pos: usize = start;
    let mut i: usize = 0;
    proof {
        match whole {
            Ok((pairs, n)) => {
                assert(Seq::<(Seq<char>, Frame)>::empty() + pairs =~= pairs);
            },
            Err(_) => {},
        }
    }
    while i < count
        invariant
            1 <= start <= pos <= data@.len(),
            i <= count,
            map@ == collect_entries(done),
            whole == parse_pairs(rest_at(data@, start as int), count as nat),
            whole == pairs_after(
                done,
                (pos - start) as nat,
                parse_pairs(rest_at(data@, pos as int), (count - i) as nat),
            ),
        decreases count - i,
    {
        proof {
            lemma_pairs_step(
                done,
                (pos - start) as nat,
                rest_at(data@, pos as int),
                (count - i) as nat,
            );
            if pos >= data@.len() {
                lemma_pair_unfold(rest_at(data@, pos as int));
            }
        }
        if pos >= data.len() {
            return Err(RespDecodeError::NotComplete);
        }
        match decode_pair(slice_from(data, pos)) {
            Err(e) => {
                return Err(e);
            },
            Ok((key, value, n)) => {
                proof {
                    lemma_rest_at_twice(data@, pos as int, n as int);
                    assert(done.push((key@, value@)).drop_last() =~= done);
                    done = done.push((key@, value@));
                }
                map.insert(key.0, value);
                pos = pos + n;
                i = i + 1;
            },
        }
    }
    proof {
        assert(done + Seq::<(Seq<char>, Frame)>::empty() =~= done);
    }
    Ok((map, pos))
}

/// Reads the array at the start of `data`.
pub fn decode_array(data: &[u8]) -> (r: Result<(RespArray, usize), RespDecodeError>)
    ensures
        parse_agrees::<RespArray>(r, parse_array(data@), data@.len()),
    decreases data@.len(), 2nat,
{
    let (end, count) = parse_length(data, "*")?;
    let total = array_length(data)?;
    if data.len() < total {
        return Err(RespDecodeError::NotComplete);
    }
    match decode_items(data, end + 2, count) {
        Err(e) => Err(e),
        Ok((frames, stop)) => Ok((RespArray::new(frames), stop)),
    }
}

/// Reads the set at the start of `data`.
pub fn decode_set(data: &[u8]) -> (r: Result<(RespSet, usize), RespDecodeError>)
    ensures
        parse_agrees::<RespSet>(r, parse_set(data@), data@.len()),
    decreases data@.len(), 2nat,
{
    let (end, count) = parse_length(data, "~")?;
    let total = set_length(data)?;
    if data.len() < total {
        return Err(RespDecodeError::NotComplete);
    }
    match decode_items(data, end + 2, count) {
        Err(e) => Err(e),
        Ok((frames, stop)) => Ok((RespSet::new(frames), stop)),
    }
}

/// Reads the map at the start of `data`.
pub fn decode_map(data: &[u8]) -> (r: Result<(RespMap, usize), RespDecodeError>)
    ensures
        parse_agrees::<RespMap>(r, parse_map(data@), data@.len()),
    decreases data@.len(), 2nat,
{
    let (end, count) = parse_length(data, "%")?;
    let total = map_length(data)?;
    if data.len() < total {
        return Err(RespDecodeError::NotComplete);
    }
    decode_pairs(data, end + 2, count)
}

/// Reads the frame at the start of `data` where its leading byte names a type that
/// one terminator ends.
fn decode_line_frame(data: &[u8]) -> (r: Result<(RespFrame, usize), RespDecodeError>)
    requires
        data@.len() > 0,
        data@[0] == 43u8 || data@[0] == 45u8 || data@[0] == 58u8 || data@[0] == 44u8,
    ensures
        parse_agrees::<RespFrame>(r, parse_frame(data@), data@.len()),
{
    proof {
        reveal(parse_frame);
    }
    let marker = data[0];
    if marker == 43 {
        match decode_simple_string(data) {
            Ok((v, n)) => Ok((RespFrame::SimpleString(v), n)),
            Err(e) => Err(e),
        }
    } else if marker == 45 {
        match decode_simple_error(data) {
            Ok((v, n)) => Ok((RespFrame::Error(v), n)),
            Err(e) => Err(e),
        }
    } else if marker == 58 {
        match decode_integer(data) {
            Ok((v, n)) => Ok((RespFrame::Integer(v), n)),
            Err(e) => Err(e),
        }
    } else {
        match decode_double(data) {
            Ok((v, n)) => Ok((RespFrame::Double(v), n)),
            Err(e) => Err(e),
        }
    }
}

/// Reads the frame at the start of `data` where its leading byte is `_` or `#`.
fn decode_literal_frame(data: &[u8]) -> (r: Result<(RespFrame, usize), RespDecodeError>)
    requires
        data@.len() > 0,
        data@[0] == 95u8 || data@[0] == 35u8,
    ensures
        parse_agrees::<RespFrame>(r, parse_frame(data@), data@.len()),
{
    proof {
        reveal(parse_frame);
    }
    if data[0] == 95 {
        match decode_null(data) {
            Ok((v, n)) => Ok((RespFrame::Null(v), n)),
            Err(e) => Err(e),
        }
    } else {
        match decode_bool(data) {
            Ok((v, n)) => Ok((RespFrame::Boolean(v), n)),
            Err(e) => Err(e),
        }
    }
}

/// Reads the frame at the start of `data` where its leading byte is `$`: the null
/// bulk string, or else a bulk string.
fn decode_bulk_frame(data: &[u8]) -> (r: Result<(RespFrame, usize), RespDecodeError>)
    requires
        data@.len() > 0,
        data@[0] == 36u8,
    ensures
        parse_agrees::<RespFrame>(r, parse_frame(data@), data@.len()),
{
    proof {
        reveal(parse_frame);
    }
    match decode_null_bulk_string(data) {
        Ok((v, n)) => Ok((RespFrame::NullBulkString(v), n)),
        Err(RespDecodeError::NotComplete) => Err(RespDecodeError::NotComplete),
        Err(_) => match decode_bulk_string(data) {
            Ok((v, n)) => Ok((RespFrame::BulkString(v), n)),
            Err(e) => Err(e),
        },
    }
}

/// Reads the frame at the start of `data` where its leading byte is `*`: the null
/// array, or else an array.
fn decode_array_frame(data: &[u8]) -> (r: Result<(RespFrame, usize), RespDecodeError>)
    requires
        data@.len() > 0,
        data@[0] == 42u8,
    ensures
        parse_agrees::<RespFrame>(r, parse_frame(data@), data@.len()),
    decreases data@.len(), 3nat,
{
    proof {
        reveal(parse_frame);
    }
    match decode_null_array(data) {
        Ok((v, n)) => Ok((RespFrame::NullArray(v), n)),
        Err(RespDecodeError::NotComplete) => Err(RespDecodeError::NotComplete),
        Err(_) => match decode_array(data) {
            Ok((v, n)) => Ok((RespFrame::Array(v), n)),
            Err(e) => Err(e),
        },
    }
}

/// Reads the frame at the start of `data` where its leading byte is `%` or `~`.
fn decode_keyed_frame(data: &[u8]) -> (r: Result<(RespFrame, usize), RespDecodeError>)
    requires
        data@.len() > 0,
        data@[0] == 37u8 || data@[0] == 126u8,
    ensures
        parse_agrees::<RespFrame>(r, parse_frame(data@), data@.len()),
    decreases data@.len(), 3nat,
{
    proof {
        reveal(parse_frame);
    }
    if data[0] == 37 {
        match decode_map(data) {
            Ok((v, n)) => Ok((RespFrame::RespMap(v), n)),
            Err(e) => Err(e),
        }
    } else {
        match decode_set(data) {
            Ok((v, n)) => Ok((RespFrame::RespSet(v), n)),
            Err(e) => Err(e),
        }
    }
}

/// Reads the frame at the start of `data`, whatever its type, and returns it with
/// the number of bytes that it occupies.
pub fn decode_frame(data: &[u8]) -> (r: Result<(RespFrame, usize), RespDecodeError>)
    ensures
        parse_agrees::<RespFrame>(r, parse_frame(data@), data@.len()),
    decreases data@.len(), 4nat,
{
    if data.len() == 0 {
        proof {
            lemma_parse_nothing(data@);
        }
        return Err(RespDecodeError::NotComplete);
    }
    let marker = data[0];
    if marker == 43 || marker == 45 || marker == 58 || marker == 44 {
        decode_line_frame(data)
    } else if marker == 36 {
        decode_bulk_frame(data)
    } else if marker == 42 {
        decode_array_frame(data)
    } else if marker == 95 || marker == 35 {
        decode_literal_frame(data)
    } else if marker == 37 || marker == 126 {
        decode_keyed_frame(data)
    } else {
        proof {
            lemma_unknown_marker(data@);
        }
        let rendered = render_escaped(data);
        Err(unknown_frame_type(rendered.as_str()))
    }
}

/// Bytes that start with no known marker are not a frame.
pub proof fn lemma_unknown_marker(s: Seq<u8>)
    requires
        s.len() > 0,
        s[0] != 43u8 && s[0] != 45u8 && s[0] != 58u8 && s[0] != 36u8 && s[0] != 42u8 && s[0]
            != 95u8 && s[0] != 35u8 && s[0] != 44u8 && s[0] != 37u8 && s[0] != 126u8,
    ensures
        parse_frame(s) == Err::<(Frame, nat), Flaw>(Flaw::InvalidFrameType(unknown_marker_text(s))),
{
    reveal(parse_frame);
}

/// A type of value that can be read from the front of a buffer.
pub trait RespDecode: Sized + View {
    /// The bytes with which the encoding of every value of the type starts.
    const PREFIX: &'static str;

    /// What a run of bytes means as a value of this type.
    spec fn parsed(bytes: Seq<u8>) -> Parsed<Self::V>;

    /// The span that the length oracle finds for a value of this type.
    spec fn span(bytes: Seq<u8>) -> Result<nat, Flaw>;

    /// Reads one value from the front of `buf` and removes exactly its bytes from
    /// the buffer. Where there is no value, whether because bytes are missing or
    /// because they are wrong, the buffer stays as it is.
    fn decode(buf: &mut BytesMut) -> (r: Result<Self, RespDecodeError>)
        ensures
            match Self::parsed(buffered(old(buf))) {
                Ok((v, n)) => r matches Ok(value) && value@ == v && buffered(final(buf))
                    == buffered(old(buf)).skip(n as int),
                Err(flaw) => r matches Err(e) && e@ == flaw && buffered(final(buf)) == buffered(
                    old(buf),
                ),
            },
    ;

    /// The number of bytes that the value at the start of `buf` occupies once it is
    /// complete. A span that exceeds `usize` is reported as a number out of range.
    fn expect_length(buf: &[u8]) -> (r: Result<usize, RespDecodeError>)
        ensures
            span_agrees(r, Self::span(buf@)),
    ;
}

impl RespDecode for RespFrame {
    const PREFIX: &'static str = "";

    open spec fn parsed(bytes: Seq<u8>) -> Parsed<Frame> {
        parse_frame(bytes)
    }

    open spec fn span(bytes: Seq<u8>) -> Result<nat, Flaw> {
        frame_span(bytes)
    }

    fn decode(buf: &mut BytesMut) -> (r: Result<Self, RespDecodeError>) {
        match decode_frame(buffer_bytes(buf)) {
            Ok((value, n)) => {
                buffer_advance(buf, n);
                Ok(value)
            },
            Err(e) => Err(e),
        }
    }

    fn expect_length(buf: &[u8]) -> (r: Result<usize, RespDecodeError>) {
        frame_length(buf)
    }
}

impl RespDecode for SimpleString {
    const PREFIX: &'static str = "+";

    open spec fn parsed(bytes: Seq<u8>) -> Parsed<Seq<char>> {
        parse_simple_string(bytes)
    }

    open spec fn span(bytes: Seq<u8>) -> Result<nat, Flaw> {
        scalar_span(bytes, "+"@)
    }

    fn decode(buf: &mut BytesMut) -> (r: Result<Self, RespDecodeError>) {
        match decode_simple_string(buffer_bytes(buf)) {
            Ok((value, n)) => {
                buffer_advance(buf, n);
                Ok(value)
            },
            Err(e) => Err(e),
        }
    }

    fn expect_length(buf: &[u8]) -> (r: Result<usize, RespDecodeError>) {
        scalar_length(buf, "+")
    }
}

impl RespDecode for SimpleError {
    const PREFIX: &'static str = "-";

    open spec fn parsed(bytes: Seq<u8>) -> Parsed<Seq<char>> {
        parse_simple_error(bytes)
    }

    open spec fn span(bytes: Seq<u8>) -> Result<nat, Flaw> {
        scalar_span(bytes, "-"@)
    }

    fn decode(buf: &mut BytesMut) -> (r: Result<Self, RespDecodeError>) {
        match decode_simple_error(buffer_bytes(buf)) {
            Ok((value, n)) => {
                buffer_advance(buf, n);
                Ok(value)
            },
            Err(e) => Err(e),
        }
    }

    fn expect_length(buf: &[u8]) -> (r: Result<usize, RespDecodeError>) {
        scalar_length(buf, "-")
    }
}

impl RespDecode for RespNull {
    const PREFIX: &'static str = "_\r\n";

    open spec fn parsed(bytes: Seq<u8>) -> Parsed<()> {
        parse_null(bytes)
    }

    open spec fn span(bytes: Seq<u8>) -> Result<nat, Flaw> {
        scalar_span(bytes, "_"@)
    }

    fn decode(buf: &mut BytesMut) -> (r: Result<Self, RespDecodeError>) {
        match decode_null(buffer_bytes(buf)) {
            Ok((value, n)) => {
                buffer_advance(buf, n);
                Ok(value)
            },
            Err(e) => Err(e),
        }
    }

    fn expect_length(buf: &[u8]) -> (r: Result<usize, RespDecodeError>) {
        scalar_length(buf, "_")
    }
}

impl RespDecode for RespNullArray {
    const PREFIX: &'static str = "*-1\r\n";

    open spec fn parsed(bytes: Seq<u8>) -> Parsed<()> {
        parse_null_array(bytes)
    }

    open spec fn span(bytes: Seq<u8>) -> Result<nat, Flaw> {
        scalar_span(bytes, "*"@)
    }

    fn decode(buf: &mut BytesMut) -> (r: Result<Self, RespDecodeError>) {
        match decode_null_array(buffer_bytes(buf)) {
            Ok((value, n)) => {
                buffer_advance(buf, n);
                Ok(value)
            },
            Err(e) => Err(e),
        }
    }

    fn expect_length(buf: &[u8]) -> (r: Result<usize, RespDecodeError>) {
        scalar_length(buf, "*")
    }
}

impl RespDecode for RespNullBulkString {
    const PREFIX: &'static str = "$-1\r\n";

    open spec fn parsed(bytes: Seq<u8>) -> Parsed<()> {
        parse_null_bulk_string(bytes)
    }

    open spec fn span(bytes: Seq<u8>) -> Result<nat, Flaw> {
        scalar_span(bytes, "$"@)
    }

    fn decode(buf: &mut BytesMut) -> (r: Result<Self, RespDecodeError>) {
        match decode_null_bulk_string(buffer_bytes(buf)) {
            Ok((value, n)) => {
                buffer_advance(buf, n);
                Ok(value)
            },
            Err(e) => Err(e),
        }
    }

    fn expect_length(buf: &[u8]) -> (r: Result<usize, RespDecodeError>) {
        scalar_length(buf, "$")
    }
}

impl RespDecode for i64 {
    const PREFIX: &'static str = ":";

    open spec fn parsed(bytes: Seq<u8>) -> Parsed<i64> {
        parse_integer(bytes)
    }

    open spec fn span(bytes: Seq<u8>) -> Result<nat, Flaw> {
        scalar_span(bytes, ":"@)
    }

    fn decode(buf: &mut BytesMut) -> (r: Result<Self, RespDecodeError>) {
        match decode_integer(buffer_bytes(buf)) {
            Ok((value, n)) => {
                buffer_advance(buf, n);
                Ok(value)
            },
            Err(e) => Err(e),
        }
    }

    fn expect_length(buf: &[u8]) -> (r: Result<usize, RespDecodeError>) {
        scalar_length(buf, ":")
    }
}

impl RespDecode for BulkString {
    const PREFIX: &'static str = "$";

    open spec fn parsed(bytes: Seq<u8>) -> Parsed<Seq<u8>> {
        parse_bulk_string(bytes)
    }

    open spec fn span(bytes: Seq<u8>) -> Result<nat, Flaw> {
        bulk_span(bytes)
    }

    fn decode(buf: &mut BytesMut) -> (r: Result<Self, RespDecodeError>) {
        match decode_bulk_string(buffer_bytes(buf)) {
            Ok((value, n)) => {
                buffer_advance(buf, n);
                Ok(value)
            },
            Err(e) => Err(e),
        }
    }

    fn expect_length(buf: &[u8]) -> (r: Result<usize, RespDecodeError>) {
        bulk_length(buf)
    }
}

impl RespDecode for bool {
    const PREFIX: &'static str = "#";

    open spec fn parsed(bytes: Seq<u8>) -> Parsed<bool> {
        parse_bool(bytes)
    }

    open spec fn span(bytes: Seq<u8>) -> Result<nat, Flaw> {
        scalar_span(bytes, "#"@)
    }

    fn decode(buf: &mut BytesMut) -> (r: Result<Self, RespDecodeError>) {
        match decode_bool(buffer_bytes(buf)) {
            Ok((value, n)) => {
                buffer_advance(buf, n);
                Ok(value)
            },
            Err(e) => Err(e),
        }
    }

    fn expect_length(buf: &[u8]) -> (r: Result<usize, RespDecodeError>) {
        scalar_length(buf, "#")
    }
}

impl RespDecode for RespArray {
    const PREFIX: &'static str = "*";

    open spec fn parsed(bytes: Seq<u8>) -> Parsed<Seq<Frame>> {
        parse_array(bytes)
    }

    open spec fn span(bytes: Seq<u8>) -> Result<nat, Flaw> {
        array_span(bytes)
    }

    fn decode(buf: &mut BytesMut) -> (r: Result<Self, RespDecodeError>) {
        match decode_array(buffer_bytes(buf)) {
            Ok((value, n)) => {
                buffer_advance(buf, n);
                Ok(value)
            },
            Err(e) => Err(e),
        }
    }

    fn expect_length(buf: &[u8]) -> (r: Result<usize, RespDecodeError>) {
        array_length(buf)
    }
}

impl RespDecode for RespDouble {
    const PREFIX: &'static str = ",";

    open spec fn parsed(bytes: Seq<u8>) -> Parsed<Seq<char>> {
        parse_double(bytes)
    }

    open spec fn span(bytes: Seq<u8>) -> Result<nat, Flaw> {
        scalar_span(bytes, ","@)
    }

    fn decode(buf: &mut BytesMut) -> (r: Result<Self, RespDecodeError>) {
        match decode_double(buffer_bytes(buf)) {
            Ok((value, n)) => {
                buffer_advance(buf, n);
                Ok(value)
            },
            Err(e) => Err(e),
        }
    }

    fn expect_length(buf: &[u8]) -> (r: Result<usize, RespDecodeError>) {
        scalar_length(buf, ",")
    }
}

impl RespDecode for RespMap {
    const PREFIX: &'static str = "%";

    open spec fn parsed(bytes: Seq<u8>) -> Parsed<Entries> {
        parse_map(bytes)
    }

    open spec fn span(bytes: Seq<u8>) -> Result<nat, Flaw> {
        map_span(bytes)
    }

    fn decode(buf: &mut BytesMut) -> (r: Result<Self, RespDecodeError>) {
        match decode_map(buffer_bytes(buf)) {
            Ok((value, n)) => {
                buffer_advance(buf, n);
                Ok(value)
            },
            Err(e) => Err(e),
        }
    }

    fn expect_length(buf: &[u8]) -> (r: Result<usize, RespDecodeError>) {
        map_length(buf)
    }
}

impl RespDecode for RespSet {
    const PREFIX: &'static str = "~";

    open spec fn parsed(bytes: Seq<u8>) -> Parsed<Seq<Frame>> {
        parse_set(bytes)
    }

    open spec fn span(bytes: Seq<u8>) -> Result<nat, Flaw> {
        set_span(bytes)
    }

    fn decode(buf: &mut BytesMut) -> (r: Result<Self, RespDecodeError>) {
        match decode_set(buffer_bytes(buf)) {
            Ok((value, n)) => {
                buffer_advance(buf, n);
                Ok(value)
            },
            Err(e) => Err(e),
        }
    }

    fn expect_length(buf: &[u8]) -> (r: Result<usize, RespDecodeError>) {
        set_length(buf)
    }
}

} // verus!
