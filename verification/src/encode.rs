//! The encoder: the canonical bytes of each frame.

use crate::decimal::decimal_digits;
use crate::decimal::push_decimal;
use crate::frame::frames_view;
use crate::frame::BulkString;
use crate::frame::Entries;
use crate::frame::Frame;
use crate::frame::RespArray;
use crate::frame::RespDouble;
use crate::frame::RespFrame;
use crate::frame::RespMap;
use crate::frame::RespNull;
use crate::frame::RespNullArray;
use crate::frame::RespNullBulkString;
use crate::frame::RespSet;
use crate::frame::SimpleError;
use crate::frame::SimpleString;
use vstd::prelude::*;
use vstd::string::StringSliceAdditionalSpecFns;
use vstd::utf8::encode_utf8;

verus! {

/// The terminator.
pub open spec fn crlf() -> Seq<u8> {
    seq![13u8, 10u8]
}

/// A marker, a text and the terminator.
pub open spec fn wire_line(marker: u8, text: Seq<char>) -> Seq<u8> {
    seq![marker] + encode_utf8(text) + crlf()
}

/// A marker, a count in decimal digits and the terminator.
pub open spec fn wire_header(marker: u8, count: nat) -> Seq<u8> {
    seq![marker] + decimal_digits(count) + crlf()
}

/// An integer: `:`, the sign, which is `+` for a number that is not negative, the
/// digits and the terminator.
pub open spec fn wire_integer(v: i64) -> Seq<u8> {
    if v < 0 {
        seq![58u8, 45u8] + decimal_digits((-v) as nat) + crlf()
    } else {
        seq![58u8, 43u8] + decimal_digits(v as nat) + crlf()
    }
}

/// A bulk string: the header with the number of bytes, the bytes and the terminator.
pub open spec fn wire_bulk(bytes: Seq<u8>) -> Seq<u8> {
    wire_header(36u8, bytes.len()) + bytes + crlf()
}

/// A boolean: `#t` or `#f` and the terminator.
pub open spec fn wire_bool(b: bool) -> Seq<u8> {
    if b {
        seq![35u8, 116u8, 13u8, 10u8]
    } else {
        seq![35u8, 102u8, 13u8, 10u8]
    }
}

/// The null: `_` and the terminator.
pub open spec fn wire_null() -> Seq<u8> {
    seq![95u8, 13u8, 10u8]
}

/// The null array: `*-1` and the terminator.
pub open spec fn wire_null_array() -> Seq<u8> {
    seq![42u8, 45u8, 49u8, 13u8, 10u8]
}

/// The null bulk string: `$-1` and the terminator.
pub open spec fn wire_null_bulk_string() -> Seq<u8> {
    seq![36u8, 45u8, 49u8, 13u8, 10u8]
}

/// The bytes of the first `n` of `items`, one frame after the other.
pub open spec fn wire_items(items: Seq<Frame>, n: nat) -> Seq<u8>
    decreases items, n,
{
    if n == 0 || n > items.len() {
        Seq::empty()
    } else {
        wire_items(items, (n - 1) as nat) + wire(items[n - 1])
    }
}

/// The bytes of the first `n` of `entries`, one after the other: each key as a
/// simple string, and then its frame.
pub open spec fn wire_entries(entries: Entries, n: nat) -> Seq<u8>
    decreases entries, n,
{
    if n == 0 || n > entries.len() {
        Seq::empty()
    } else {
        wire_entries(entries, (n - 1) as nat) + wire_line(43u8, entries[n - 1].0) + wire(
            entries[n - 1].1,
        )
    }
}

/// The canonical bytes of a frame.
pub open spec fn wire(frame: Frame) -> Seq<u8>
    decreases frame, 0nat,
{
    match frame {
        Frame::SimpleString(text) => wire_line(43u8, text),
        Frame::Error(text) => wire_line(45u8, text),
        Frame::Integer(v) => wire_integer(v),
        Frame::BulkString(bytes) => wire_bulk(bytes),
        Frame::NullBulkString => wire_null_bulk_string(),
        Frame::Array(items) => wire_header(42u8, items.len()) + wire_items(items, items.len()),
        Frame::Null => wire_null(),
        Frame::NullArray => wire_null_array(),
        Frame::Boolean(b) => wire_bool(b),
        Frame::Double(text) => wire_line(44u8, text),
        Frame::RespMap(entries) => wire_header(37u8, entries.len()) + wire_entries(
            entries,
            entries.len(),
        ),
        Frame::RespSet(items) => wire_header(126u8, items.len()) + wire_items(items, items.len()),
    }
}

/// Appends `bytes` to `out`.
pub fn push_bytes(out: &mut Vec<u8>, bytes: &[u8])
    ensures
        final(out)@ == old(out)@ + bytes@,
{
    let mut i: usize = 0;
    while i < bytes.len()
        invariant
            i <= bytes@.len(),
            out@ == old(out)@ + bytes@.take(i as int),
        decreases bytes.len() - i,
    {
        out.push(bytes[i]);
        assert(bytes@.take(i + 1) =~= bytes@.take(i as int).push(bytes@[i as int]));
        i = i + 1;
    }
    assert(bytes@.take(bytes@.len() as int) =~= bytes@);
}

/// Appends the terminator to `out`.
fn push_crlf(out: &mut Vec<u8>)
    ensures
        final(out)@ == old(out)@ + crlf(),
{
    out.push(13);
    out.push(10);
    assert(final(out)@ =~= old(out)@ + crlf());
}

/// Appends a marker, a text and the terminator to `out`.
fn push_line(out: &mut Vec<u8>, marker: u8, text: &str)
    ensures
        final(out)@ == old(out)@ + wire_line(marker, text@),
{
    out.push(marker);
    push_bytes(out, text.as_bytes());
    push_crlf(out);
    assert(final(out)@ =~= old(out)@ + wire_line(marker, text@));
}

/// Appends a marker, a count and the terminator to `out`.
fn push_header(out: &mut Vec<u8>, marker: u8, count: usize)
    ensures
        final(out)@ == old(out)@ + wire_header(marker, count as nat),
{
    out.push(marker);
    push_decimal(out, count as u64);
    push_crlf(out);
    assert(final(out)@ =~= old(out)@ + wire_header(marker, count as nat));
}

/// Appends the bytes of an integer frame to `out`.
fn push_integer(out: &mut Vec<u8>, v: i64)
    ensures
        final(out)@ == old(out)@ + wire_integer(v),
{
    out.push(58);
    if v < 0 {
        out.push(45);
        let magnitude: u64 = if v == i64::MIN {
            0x8000_0000_0000_0000
        } else {
            (-v) as u64
        };
        push_decimal(out, magnitude);
    } else {
        out.push(43);
        push_decimal(out, v as u64);
    }
    push_crlf(out);
    assert(final(out)@ =~= old(out)@ + wire_integer(v));
}

/// Appends the bytes of a bulk string frame to `out`.
fn push_bulk(out: &mut Vec<u8>, bytes: &[u8])
    ensures
        final(out)@ == old(out)@ + wire_bulk(bytes@),
{
    push_header(out, 36, bytes.len());
    push_bytes(out, bytes);
    push_crlf(out);
    assert(final(out)@ =~= old(out)@ + wire_bulk(bytes@));
}

/// Appends the bytes of `frames`, one frame after the other, to `out`.
fn push_items(out: &mut Vec<u8>, frames: &Vec<RespFrame>)
    ensures
        final(out)@ == old(out)@ + wire_items(frames_view(frames@), frames@.len()),
    decreases frames, 0nat,
{
    let mut i: usize = 0;
    assert(old(out)@ + wire_items(frames_view(frames@), 0) =~= old(out)@);
    while i < frames.len()
        invariant
            i <= frames@.len(),
            out@ == old(out)@ + wire_items(frames_view(frames@), i as nat),
        decreases frames@.len() - i,
    {
        let ghost before = out@;
        encode_into(&frames[i], out);
        assert(out@ =~= old(out)@ + wire_items(frames_view(frames@), (i + 1) as nat)) by {
            assert(frames_view(frames@)[i as int] == frames@[i as int]@);
            assert(out@ == before + wire(frames@[i as int]@));
        }
        i = i + 1;
    }
}

/// Appends the bytes of the entries of `map`, in ascending order of their keys, to
/// `out`.
fn push_entries(out: &mut Vec<u8>, map: &RespMap)
    ensures
        final(out)@ == old(out)@ + wire_entries(map@, map@.len()),
    decreases map, 0nat,
{
    let mut i: usize = 0;
    let n = map.len();
    assert(old(out)@ + wire_entries(map@, 0) =~= old(out)@);
    while i < n
        invariant
            i <= n,
            n == map@.len(),
            out@ == old(out)@ + wire_entries(map@, i as nat),
        decreases n - i,
    {
        let ghost before = out@;
        push_line(out, 43, map.key_at(i).as_str());
        encode_into(map.value_at(i), out);
        assert(out@ =~= old(out)@ + wire_entries(map@, (i + 1) as nat)) by {
            assert(out@ == before + wire_line(43u8, map@[i as int].0) + wire(map@[i as int].1));
        }
        i = i + 1;
    }
}

/// Appends the canonical bytes of `frame` to `out`.
pub fn encode_into(frame: &RespFrame, out: &mut Vec<u8>)
    ensures
        final(out)@ == old(out)@ + wire(frame@),
    decreases frame, 1nat,
{
    match frame {
        RespFrame::SimpleString(s) => push_line(out, 43, s.0.as_str()),
        RespFrame::Error(e) => push_line(out, 45, e.0.as_str()),
        RespFrame::Integer(v) => push_integer(out, *v),
        RespFrame::BulkString(b) => push_bulk(out, b.0.as_slice()),
        RespFrame::NullBulkString(_) => {
            push_bytes(out, "$-1".as_bytes());
            push_crlf(out);
            proof {
                lemma_token_bytes();
            }
            assert(final(out)@ =~= old(out)@ + wire_null_bulk_string());
        },
        RespFrame::Array(a) => {
            push_header(out, 42, a.0.len());
            push_items(out, &a.0);
            assert(final(out)@ =~= old(out)@ + wire(frame@));
        },
        RespFrame::Null(_) => {
            out.push(95);
            push_crlf(out);
            assert(final(out)@ =~= old(out)@ + wire_null());
        },
        RespFrame::NullArray(_) => {
            push_bytes(out, "*-1".as_bytes());
            push_crlf(out);
            proof {
                lemma_token_bytes();
            }
            assert(final(out)@ =~= old(out)@ + wire_null_array());
        },
        RespFrame::Boolean(b) => {
            out.push(35);
            out.push(
                if *b {
                    116
                } else {
                    102
                },
            );
            push_crlf(out);
            assert(final(out)@ =~= old(out)@ + wire_bool(*b));
        },
        RespFrame::Double(d) => push_line(out, 44, d.0.as_str()),
        RespFrame::RespMap(m) => {
            push_header(out, 37, m.len());
            push_entries(out, m);
            assert(final(out)@ =~= old(out)@ + wire(frame@));
        },
        RespFrame::RespSet(s) => {
            push_header(out, 126, s.0.len());
            push_items(out, &s.0);
            assert(final(out)@ =~= old(out)@ + wire(frame@));
        },
    }
}

/// A value that has canonical bytes on the wire.
pub trait RespEncode: Sized {
    /// The canonical bytes of the value.
    spec fn encoded(&self) -> Seq<u8>;

    /// Turns the value into its canonical bytes. This never fails.
    fn encode(self) -> (out: Vec<u8>)
        ensures
            out@ == self.encoded(),
    ;
}

impl RespEncode for RespFrame {
    open spec fn encoded(&self) -> Seq<u8> {
        wire(self@)
    }

    fn encode(self) -> (out: Vec<u8>) {
        let mut out: Vec<u8> = Vec::new();
        encode_into(&self, &mut out);
        assert(out@ =~= wire(self@));
        out
    }
}

impl RespEncode for SimpleString {
    open spec fn encoded(&self) -> Seq<u8> {
        wire_line(43u8, self@)
    }

    fn encode(self) -> (out: Vec<u8>) {
        let mut out: Vec<u8> = Vec::new();
        push_line(&mut out, 43, self.0.as_str());
        assert(out@ =~= wire_line(43u8, self@));
        out
    }
}

impl RespEncode for SimpleError {
    open spec fn encoded(&self) -> Seq<u8> {
        wire_line(45u8, self@)
    }

    fn encode(self) -> (out: Vec<u8>) {
        let mut out: Vec<u8> = Vec::new();
        push_line(&mut out, 45, self.0.as_str());
        assert(out@ =~= wire_line(45u8, self@));
        out
    }
}

impl RespEncode for i64 {
    open spec fn encoded(&self) -> Seq<u8> {
        wire_integer(*self)
    }

    fn encode(self) -> (out: Vec<u8>) {
        let mut out: Vec<u8> = Vec::new();
        push_integer(&mut out, self);
        assert(out@ =~= wire_integer(self));
        out
    }
}

impl RespEncode for Vec<u8> {
    open spec fn encoded(&self) -> Seq<u8> {
        wire_bulk(self@)
    }

    fn encode(self) -> (out: Vec<u8>) {
        let mut out: Vec<u8> = Vec::new();
        push_bulk(&mut out, self.as_slice());
        assert(out@ =~= wire_bulk(self@));
        out
    }
}

impl RespEncode for BulkString {
    open spec fn encoded(&self) -> Seq<u8> {
        wire_bulk(self@)
    }

    fn encode(self) -> (out: Vec<u8>) {
        self.0.encode()
    }
}

impl RespEncode for RespNullBulkString {
    open spec fn encoded(&self) -> Seq<u8> {
        wire_null_bulk_string()
    }

    fn encode(self) -> (out: Vec<u8>) {
        RespFrame::NullBulkString(self).encode()
    }
}

impl RespEncode for RespNull {
    open spec fn encoded(&self) -> Seq<u8> {
        wire_null()
    }

    fn encode(self) -> (out: Vec<u8>) {
        RespFrame::Null(self).encode()
    }
}

impl RespEncode for RespNullArray {
    open spec fn encoded(&self) -> Seq<u8> {
        wire_null_array()
    }

    fn encode(self) -> (out: Vec<u8>) {
        RespFrame::NullArray(self).encode()
    }
}

impl RespEncode for RespArray {
    open spec fn encoded(&self) -> Seq<u8> {
        wire(Frame::Array(self@))
    }

    fn encode(self) -> (out: Vec<u8>) {
        RespFrame::Array(self).encode()
    }
}

impl RespEncode for bool {
    open spec fn encoded(&self) -> Seq<u8> {
        wire_bool(*self)
    }

    fn encode(self) -> (out: Vec<u8>) {
        RespFrame::Boolean(self).encode()
    }
}

impl RespEncode for RespDouble {
    open spec fn encoded(&self) -> Seq<u8> {
        wire_line(44u8, self@)
    }

    fn encode(self) -> (out: Vec<u8>) {
        RespFrame::Double(self).encode()
    }
}

impl RespEncode for RespMap {
    open spec fn encoded(&self) -> Seq<u8> {
        wire(Frame::RespMap(self@))
    }

    fn encode(self) -> (out: Vec<u8>) {
        RespFrame::RespMap(self).encode()
    }
}

impl RespEncode for RespSet {
    open spec fn encoded(&self) -> Seq<u8> {
        wire(Frame::RespSet(self@))
    }

    fn encode(self) -> (out: Vec<u8>) {
        RespFrame::RespSet(self).encode()
    }
}

/// The bytes of the two null tokens before their terminator.
pub proof fn lemma_token_bytes()
    ensures
        encode_utf8("$-1"@) == seq![36u8, 45u8, 49u8],
        encode_utf8("*-1"@) == seq![42u8, 45u8, 49u8],
{
    reveal_strlit("$-1");
    reveal_strlit("*-1");
    vstd::utf8::is_ascii_chars_encode_utf8("$-1"@);
    vstd::utf8::is_ascii_chars_encode_utf8("*-1"@);
    assert(encode_utf8("$-1"@) =~= seq![36u8, 45u8, 49u8]);
    assert(encode_utf8("*-1"@) =~= seq![42u8, 45u8, 49u8]);
}

} // verus!
