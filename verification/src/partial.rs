//! Partial input: what the length oracle and the decoder say of an encoding of
//! which only a proper beginning has arrived.

use crate::decimal::decimal_digits;
use crate::decimal::is_digit;
use crate::decimal::lemma_decimal_digits;
use crate::encode::crlf;
use crate::encode::wire;
use crate::encode::wire_bool;
use crate::encode::wire_bulk;
use crate::encode::wire_header;
use crate::encode::wire_integer;
use crate::encode::wire_line;
use crate::encode::wire_null;
use crate::encode::wire_null_array;
use crate::encode::wire_null_bulk_string;
use crate::error::Flaw;
use crate::frame::Entries;
use crate::frame::Frame;
use crate::laws::canonical;
use crate::laws::lemma_digits_plain;
use crate::laws::lemma_header;
use crate::laws::lemma_header_cut;
use crate::laws::lemma_line_span;
use crate::laws::lemma_pair_span_exact;
use crate::laws::lemma_small_bodies;
use crate::laws::lemma_span_exact;
use crate::laws::lemma_wire_entries_split;
use crate::laws::lemma_wire_entries_tail_len;
use crate::laws::lemma_wire_items_split;
use crate::laws::lemma_wire_tail_len;
use crate::laws::plain_line;
use crate::laws::wire_entries_tail;
use crate::laws::wire_entry;
use crate::laws::wire_tail;
use crate::length::bulk_span;
use crate::length::frame_span;
use crate::length::items_span;
use crate::length::lemma_container_spans_unfold;
use crate::length::lemma_frame_span_dispatch;
use crate::length::lemma_items_span_unfold;
use crate::length::lemma_pair_span_unfold;
use crate::length::lemma_pairs_span_unfold;
use crate::length::pair_span;
use crate::length::pairs_span;
use crate::length::rest_at;
use crate::length::scalar_span;
use crate::lines::lemma_line_cut;
use crate::lines::lemma_marker_bytes;
use crate::lines::no_crlf;
use crate::decode::parse_array;
use crate::decode::parse_bool;
use crate::decode::parse_bulk_string;
use crate::decode::parse_double;
use crate::decode::parse_frame;
use crate::decode::parse_integer;
use crate::decode::parse_map;
use crate::decode::parse_null;
use crate::decode::parse_null_array;
use crate::decode::parse_null_bulk_string;
use crate::decode::parse_set;
use crate::decode::parse_simple_error;
use crate::decode::parse_simple_string;
use crate::decode::probe;
use crate::roundtrip::lemma_containers_unfold;
use crate::roundtrip::lemma_literal_bytes;
use crate::roundtrip::lemma_probe_differs;
use crate::scan::length_header;
use crate::scan::simple_frame_end;
use vstd::prelude::*;
use vstd::utf8::encode_utf8;

verus! {

/// The oracle has nothing to report yet, or it reports `total`.
pub open spec fn waits_or_knows(span: Result<nat, Flaw>, total: nat) -> bool {
    span == Err::<nat, Flaw>(Flaw::NotComplete) || span == Ok::<nat, Flaw>(total)
}

/// Of a proper beginning of a line the oracle reports `NotComplete`.
pub proof fn lemma_line_span_cut(prefix: Seq<char>, marker: u8, body: Seq<u8>, k: int)
    requires
        encode_utf8(prefix) == seq![marker],
        no_crlf(body),
        0 <= k < body.len() + 3,
    ensures
        scalar_span((seq![marker] + body + crlf()).take(k), prefix) == Err::<nat, Flaw>(
            Flaw::NotComplete,
        ),
{
    lemma_line_cut(prefix, marker, body, k);
}

/// Of a proper beginning of a simple string, a simple error, a double, an integer,
/// a boolean or the null the oracle reports `NotComplete`.
proof fn lemma_scalar_span_cut(marker: u8, body: Seq<u8>, k: int)
    requires
        marker == 43u8 || marker == 45u8 || marker == 44u8 || marker == 58u8 || marker == 35u8
            || marker == 95u8,
        no_crlf(body),
        0 <= k < body.len() + 3,
    ensures
        frame_span((seq![marker] + body + crlf()).take(k)) == Err::<nat, Flaw>(Flaw::NotComplete),
{
    lemma_marker_bytes();
    let p = (seq![marker] + body + crlf()).take(k);
    lemma_frame_span_dispatch(p);
    if k > 0 {
        assert(p[0] == marker);
        if marker == 43u8 {
            lemma_line_span_cut("+"@, marker, body, k);
        } else if marker == 45u8 {
            lemma_line_span_cut("-"@, marker, body, k);
        } else if marker == 44u8 {
            lemma_line_span_cut(","@, marker, body, k);
        } else if marker == 58u8 {
            lemma_line_span_cut(":"@, marker, body, k);
        } else if marker == 35u8 {
            lemma_line_span_cut("#"@, marker, body, k);
        } else {
            lemma_line_span_cut("_"@, marker, body, k);
        }
    }
}

/// Of a proper beginning of one of the two null forms the oracle reports
/// `NotComplete`.
proof fn lemma_null_forms_span_cut(marker: u8, k: int)
    requires
        marker == 36u8 || marker == 42u8,
        0 <= k < 5,
    ensures
        frame_span((seq![marker] + seq![45u8, 49u8] + crlf()).take(k)) == Err::<nat, Flaw>(
            Flaw::NotComplete,
        ),
{
    lemma_marker_bytes();
    lemma_small_bodies(0);
    let body = seq![45u8, 49u8];
    let p = (seq![marker] + body + crlf()).take(k);
    lemma_frame_span_dispatch(p);
    lemma_container_spans_unfold(p);
    if k > 0 {
        assert(p[0] == marker);
        if marker == 36u8 {
            lemma_line_cut("$"@, marker, body, k);
        } else {
            lemma_line_cut("*"@, marker, body, k);
        }
    }
}

/// A beginning of a header and what follows it is the whole header and a beginning
/// of what follows, once it is longer than the header.
proof fn lemma_take_past_header(header: Seq<u8>, tail: Seq<u8>, k: int)
    requires
        header.len() <= k <= header.len() + tail.len(),
    ensures
        (header + tail).take(k) == header + tail.take(k - header.len()),
{
    assert((header + tail).take(k) =~= header + tail.take(k - header.len()));
}

/// A beginning within the header is a beginning of the header.
proof fn lemma_take_within_header(header: Seq<u8>, tail: Seq<u8>, k: int)
    requires
        0 <= k <= header.len(),
    ensures
        (header + tail).take(k) == header.take(k),
{
    assert((header + tail).take(k) =~= header.take(k));
}

/// Of a proper beginning of a bulk string the oracle reports `NotComplete` before
/// the header is whole, and the length of the whole encoding after that.
pub proof fn lemma_bulk_span_cut(bytes: Seq<u8>, k: int)
    requires
        wire_bulk(bytes).len() <= usize::MAX,
        0 <= k < wire_bulk(bytes).len(),
    ensures
        waits_or_knows(frame_span(wire_bulk(bytes).take(k)), wire_bulk(bytes).len()),
        k < wire_header(36u8, bytes.len()).len() ==> length_header(
            wire_bulk(bytes).take(k),
            "$"@,
        ) == Err::<(int, int), Flaw>(Flaw::NotComplete),
        k >= wire_header(36u8, bytes.len()).len() ==> bulk_span(wire_bulk(bytes).take(k))
            == Ok::<nat, Flaw>(wire_bulk(bytes).len()) && length_header(
            wire_bulk(bytes).take(k),
            "$"@,
        ) is Ok,
{
    lemma_marker_bytes();
    let header = wire_header(36u8, bytes.len());
    let tail = bytes + crlf();
    let p = wire_bulk(bytes).take(k);
    assert(wire_bulk(bytes) =~= header + tail);
    lemma_decimal_digits(bytes.len());
    lemma_frame_span_dispatch(p);
    if k > 0 {
        assert(p[0] == 36u8);
        if k < header.len() {
            lemma_take_within_header(header, tail, k);
            lemma_header_cut("$"@, 36u8, bytes.len(), k);
        } else {
            lemma_take_past_header(header, tail, k);
            lemma_header("$"@, 36u8, bytes.len(), tail.take(k - header.len()));
            lemma_digits_plain(bytes.len());
        }
    }
}

/// Of a proper beginning of the rest of the items of a container the oracle reports
/// `NotComplete`, or where the rest ends.
pub proof fn lemma_items_span_cut(items: Seq<Frame>, from: int, m: int, base: nat)
    requires
        0 <= from <= items.len(),
        forall|i: int| 0 <= i < items.len() ==> canonical(#[trigger] items[i]),
        0 <= m < wire_tail(items, from).len(),
        base + wire_tail(items, from).len() <= usize::MAX,
    ensures
        waits_or_knows(
            items_span(wire_tail(items, from).take(m), (items.len() - from) as nat, base),
            base + wire_tail(items, from).len(),
        ),
    decreases items, items.len() - from,
{
    let first = wire(items[from]);
    let others = wire_tail(items, from + 1);
    let t = wire_tail(items, from).take(m);
    lemma_items_span_unfold(t, (items.len() - from) as nat, base);
    assert(wire_tail(items, from) =~= first + others);
    if m >= first.len() {
        lemma_take_past_header(first, others, m);
        let after = others.take(m - first.len());
        lemma_span_exact(items[from], after);
        assert(rest_at(t, first.len() as int) =~= after);
        lemma_items_span_cut(items, from + 1, m - first.len(), base + first.len());
    } else {
        lemma_take_within_header(first, others, m);
        lemma_span_cut(items[from], m);
        if frame_span(t) == Ok::<nat, Flaw>(first.len()) {
            assert(rest_at(t, first.len() as int) =~= Seq::<u8>::empty());
            lemma_items_span_after_end((items.len() - from - 1) as nat, base + first.len());
            if items.len() - from - 1 == 0 {
                assert(others =~= Seq::<u8>::empty());
            }
        }
    }
}

/// Where nothing is left, no further item is found.
proof fn lemma_items_span_after_end(count: nat, base: nat)
    ensures
        count == 0 ==> items_span(Seq::<u8>::empty(), count, base) == Ok::<nat, Flaw>(base),
        count > 0 ==> items_span(Seq::<u8>::empty(), count, base) == Err::<nat, Flaw>(
            Flaw::NotComplete,
        ),
        count == 0 ==> pairs_span(Seq::<u8>::empty(), count, base) == Ok::<nat, Flaw>(base),
        count > 0 ==> pairs_span(Seq::<u8>::empty(), count, base) == Err::<nat, Flaw>(
            Flaw::NotComplete,
        ),
{
    let nothing = Seq::<u8>::empty();
    lemma_frame_span_dispatch(nothing);
    lemma_items_span_unfold(nothing, count, base);
    lemma_pairs_span_unfold(nothing, count, base);
    lemma_pair_span_unfold(nothing);
    assert(frame_span(nothing) == Err::<nat, Flaw>(Flaw::NotComplete));
    assert(scalar_span(nothing, "+"@) == Err::<nat, Flaw>(Flaw::NotComplete));
    assert(pair_span(nothing) == Err::<nat, Flaw>(Flaw::NotComplete));
}

/// Of a proper beginning of one entry of a map the oracle reports `NotComplete`,
/// or the length of the entry.
proof fn lemma_pair_span_cut(key: Seq<char>, value: Frame, m: int)
    requires
        plain_line(key),
        wire_entry((key, value)).len() <= usize::MAX,
        0 <= m < wire_entry((key, value)).len(),
        m >= wire_line(43u8, key).len() ==> waits_or_knows(
            frame_span(wire(value).take(m - wire_line(43u8, key).len())),
            wire(value).len(),
        ),
    ensures
        waits_or_knows(
            pair_span(wire_entry((key, value)).take(m)),
            wire_entry((key, value)).len(),
        ),
{
    lemma_marker_bytes();
    let line = wire_line(43u8, key);
    let body = encode_utf8(key);
    let t = wire_entry((key, value)).take(m);
    lemma_pair_span_unfold(t);
    if m < line.len() {
        lemma_take_within_header(line, wire(value), m);
        lemma_line_cut("+"@, 43u8, body, m);
    } else {
        lemma_take_past_header(line, wire(value), m);
        let after = wire(value).take(m - line.len());
        assert(t =~= seq![43u8] + body + crlf() + after);
        lemma_line_span("+"@, 43u8, body, after);
        assert(rest_at(t, line.len() as int) =~= after);
    }
}

/// Of a proper beginning of the rest of the entries of a map the oracle reports
/// `NotComplete`, or where the rest ends.
pub proof fn lemma_pairs_span_cut(entries: Entries, from: int, m: int, base: nat)
    requires
        0 <= from <= entries.len(),
        forall|i: int|
            0 <= i < entries.len() ==> plain_line((#[trigger] entries[i]).0) && canonical(
                entries[i].1,
            ),
        0 <= m < wire_entries_tail(entries, from).len(),
        base + wire_entries_tail(entries, from).len() <= usize::MAX,
    ensures
        waits_or_knows(
            pairs_span(
                wire_entries_tail(entries, from).take(m),
                (entries.len() - from) as nat,
                base,
            ),
            base + wire_entries_tail(entries, from).len(),
        ),
    decreases entries, entries.len() - from,
{
    let entry = entries[from];
    let first = wire_entry(entry);
    let others = wire_entries_tail(entries, from + 1);
    let t = wire_entries_tail(entries, from).take(m);
    lemma_pairs_span_unfold(t, (entries.len() - from) as nat, base);
    assert(wire_entries_tail(entries, from) =~= first + others);
    if m >= first.len() {
        lemma_take_past_header(first, others, m);
        let after = others.take(m - first.len());
        assert(pair_span(t) == Ok::<nat, Flaw>(first.len())) by {
            lemma_span_exact(entry.1, after);
            lemma_pair_span_exact(entry.0, entry.1, after);
        }
        assert(rest_at(t, first.len() as int) =~= after);
        lemma_pairs_span_cut(entries, from + 1, m - first.len(), base + first.len());
    } else {
        lemma_take_within_header(first, others, m);
        let line = wire_line(43u8, entry.0);
        if m >= line.len() {
            lemma_span_cut(entry.1, m - line.len());
        }
        lemma_pair_span_cut(entry.0, entry.1, m);
        if pair_span(t) == Ok::<nat, Flaw>(first.len()) {
            assert(rest_at(t, first.len() as int) =~= Seq::<u8>::empty());
            lemma_items_span_after_end((entries.len() - from - 1) as nat, base + first.len());
            if entries.len() - from - 1 == 0 {
                assert(others =~= Seq::<u8>::empty());
            }
        }
    }
}

/// Of a proper beginning of a container the oracle reports `NotComplete`, or the
/// length of the whole encoding, if it does so of the container's items.
proof fn lemma_container_span_cut(
    prefix: Seq<char>,
    marker: u8,
    count: nat,
    tail: Seq<u8>,
    k: int,
)
    requires
        encode_utf8(prefix) == seq![marker],
        count <= usize::MAX,
        0 <= k < wire_header(marker, count).len() + tail.len(),
    ensures
        k < wire_header(marker, count).len() ==> simple_frame_end(
            (wire_header(marker, count) + tail).take(k),
            prefix,
        ) == Err::<int, Flaw>(Flaw::NotComplete) && length_header(
            (wire_header(marker, count) + tail).take(k),
            prefix,
        ) == Err::<(int, int), Flaw>(Flaw::NotComplete),
        k >= wire_header(marker, count).len() ==> (wire_header(marker, count) + tail).take(k)
            == wire_header(marker, count) + tail.take(k - wire_header(marker, count).len())
            && length_header((wire_header(marker, count) + tail).take(k), prefix) == Ok::<
            (int, int),
            Flaw,
        >(((decimal_digits(count).len() + 1) as int, count as int)) && rest_at(
            (wire_header(marker, count) + tail).take(k),
            wire_header(marker, count).len() as int,
        ) == tail.take(k - wire_header(marker, count).len()),
        wire_header(marker, count).len() == decimal_digits(count).len() + 3,
        k >= 2 ==> is_digit((wire_header(marker, count) + tail).take(k)[1]),
        k >= 1 ==> (wire_header(marker, count) + tail).take(k)[0] == marker,
{
    let header = wire_header(marker, count);
    lemma_decimal_digits(count);
    let d = decimal_digits(count);
    assert(is_digit(d[0]));
    if k >= 2 {
        assert((header + tail).take(k)[1] == d[0]);
    }
    if k < header.len() {
        lemma_take_within_header(header, tail, k);
        lemma_header_cut(prefix, marker, count, k);
    } else {
        lemma_take_past_header(header, tail, k);
        let after = tail.take(k - header.len());
        lemma_header(prefix, marker, count, after);
        assert(rest_at(header + after, header.len() as int) =~= after);
    }
}

/// Of a proper beginning of an array the oracle reports `NotComplete`, or the
/// length of the whole encoding.
proof fn lemma_array_span_cut(items: Seq<Frame>, k: int)
    requires
        wire(Frame::Array(items)).len() <= usize::MAX,
        0 <= k < wire(Frame::Array(items)).len(),
        k >= wire_header(42u8, items.len()).len() ==> waits_or_knows(
            items_span(
                wire_tail(items, 0).take(k - wire_header(42u8, items.len()).len()),
                items.len(),
                wire_header(42u8, items.len()).len(),
            ),
            wire(Frame::Array(items)).len(),
        ),
    ensures
        waits_or_knows(
            frame_span(wire(Frame::Array(items)).take(k)),
            wire(Frame::Array(items)).len(),
        ),
{
    lemma_marker_bytes();
    lemma_wire_items_split(items, 0);
    lemma_wire_tail_len(items, 0);
    let tail = wire_tail(items, 0);
    assert(wire(Frame::Array(items)) =~= wire_header(42u8, items.len()) + tail);
    lemma_container_span_cut("*"@, 42u8, items.len(), tail, k);
    lemma_frame_span_dispatch(wire(Frame::Array(items)).take(k));
    lemma_container_spans_unfold(wire(Frame::Array(items)).take(k));
    if k > 0 {
        if k >= wire_header(42u8, items.len()).len() {
            lemma_header(
                "*"@,
                42u8,
                items.len(),
                tail.take(k - wire_header(42u8, items.len()).len()),
            );
            lemma_digits_plain(items.len());
        }
    }
}

/// Of a proper beginning of a set the oracle reports `NotComplete`, or the length
/// of the whole encoding.
proof fn lemma_set_span_cut(items: Seq<Frame>, k: int)
    requires
        wire(Frame::RespSet(items)).len() <= usize::MAX,
        0 <= k < wire(Frame::RespSet(items)).len(),
        k >= wire_header(126u8, items.len()).len() ==> waits_or_knows(
            items_span(
                wire_tail(items, 0).take(k - wire_header(126u8, items.len()).len()),
                items.len(),
                wire_header(126u8, items.len()).len(),
            ),
            wire(Frame::RespSet(items)).len(),
        ),
    ensures
        waits_or_knows(
            frame_span(wire(Frame::RespSet(items)).take(k)),
            wire(Frame::RespSet(items)).len(),
        ),
{
    lemma_marker_bytes();
    lemma_wire_items_split(items, 0);
    lemma_wire_tail_len(items, 0);
    let tail = wire_tail(items, 0);
    assert(wire(Frame::RespSet(items)) =~= wire_header(126u8, items.len()) + tail);
    lemma_container_span_cut("~"@, 126u8, items.len(), tail, k);
    lemma_frame_span_dispatch(wire(Frame::RespSet(items)).take(k));
    lemma_container_spans_unfold(wire(Frame::RespSet(items)).take(k));
    if k > 0 {
    }
}

/// Of a proper beginning of a map the oracle reports `NotComplete`, or the length
/// of the whole encoding.
proof fn lemma_map_span_cut(entries: Entries, k: int)
    requires
        wire(Frame::RespMap(entries)).len() <= usize::MAX,
        0 <= k < wire(Frame::RespMap(entries)).len(),
        k >= wire_header(37u8, entries.len()).len() ==> waits_or_knows(
            pairs_span(
                wire_entries_tail(entries, 0).take(k - wire_header(37u8, entries.len()).len()),
                entries.len(),
                wire_header(37u8, entries.len()).len(),
            ),
            wire(Frame::RespMap(entries)).len(),
        ),
    ensures
        waits_or_knows(
            frame_span(wire(Frame::RespMap(entries)).take(k)),
            wire(Frame::RespMap(entries)).len(),
        ),
{
    lemma_marker_bytes();
    lemma_wire_entries_split(entries, 0);
    lemma_wire_entries_tail_len(entries, 0);
    let tail = wire_entries_tail(entries, 0);
    assert(wire(Frame::RespMap(entries)) =~= wire_header(37u8, entries.len()) + tail);
    lemma_container_span_cut("%"@, 37u8, entries.len(), tail, k);
    lemma_frame_span_dispatch(wire(Frame::RespMap(entries)).take(k));
    lemma_container_spans_unfold(wire(Frame::RespMap(entries)).take(k));
    if k > 0 {
    }
}

/// Of a proper beginning of a simple string, a simple error or a double the oracle
/// reports `NotComplete`.
proof fn lemma_text_leaf_span_cut(frame: Frame, k: int)
    requires
        canonical(frame),
        frame is SimpleString || frame is Error || frame is Double,
        0 <= k < wire(frame).len(),
    ensures
        frame_span(wire(frame).take(k)) == Err::<nat, Flaw>(Flaw::NotComplete),
{
    match frame {
        Frame::SimpleString(text) => {
            lemma_scalar_span_cut(43u8, encode_utf8(text), k);
        },
        Frame::Error(text) => {
            lemma_scalar_span_cut(45u8, encode_utf8(text), k);
        },
        Frame::Double(text) => {
            lemma_scalar_span_cut(44u8, encode_utf8(text), k);
        },
        _ => {},
    }
}

/// Of a proper beginning of an integer, a boolean or the null the oracle reports
/// `NotComplete`.
proof fn lemma_small_leaf_span_cut(frame: Frame, k: int)
    requires
        frame is Integer || frame is Boolean || frame is Null,
        0 <= k < wire(frame).len(),
    ensures
        frame_span(wire(frame).take(k)) == Err::<nat, Flaw>(Flaw::NotComplete),
{
    match frame {
        Frame::Integer(v) => {
            lemma_integer_cut_shape(v);
            let body = wire_integer(v).subrange(1, wire_integer(v).len() - 2);
            lemma_scalar_span_cut(58u8, body, k);
        },
        Frame::Boolean(b) => {
            lemma_small_bodies(0);
            let body = if b {
                seq![116u8]
            } else {
                seq![102u8]
            };
            assert(wire_bool(b) =~= seq![35u8] + body + crlf());
            lemma_scalar_span_cut(35u8, body, k);
        },
        Frame::Null => {
            lemma_small_bodies(0);
            assert(wire_null() =~= seq![95u8] + Seq::<u8>::empty() + crlf());
            lemma_scalar_span_cut(95u8, Seq::<u8>::empty(), k);
        },
        _ => {},
    }
}

/// Of a proper beginning of one of the two null forms the oracle reports
/// `NotComplete`.
proof fn lemma_null_leaf_span_cut(frame: Frame, k: int)
    requires
        frame is NullArray || frame is NullBulkString,
        0 <= k < wire(frame).len(),
    ensures
        frame_span(wire(frame).take(k)) == Err::<nat, Flaw>(Flaw::NotComplete),
{
    match frame {
        Frame::NullArray => {
            assert(wire_null_array() =~= seq![42u8] + seq![45u8, 49u8] + crlf());
            lemma_null_forms_span_cut(42u8, k);
        },
        Frame::NullBulkString => {
            assert(wire_null_bulk_string() =~= seq![36u8] + seq![45u8, 49u8] + crlf());
            lemma_null_forms_span_cut(36u8, k);
        },
        _ => {},
    }
}

/// The oracle waits for a scalar: of a proper beginning of the encoding of a
/// canonical frame that has neither a declared length nor items, the oracle reports
/// `NotComplete`.
pub proof fn lemma_scalar_span_waits(frame: Frame, k: int)
    requires
        canonical(frame),
        !(frame is BulkString),
        !(frame is Array),
        !(frame is RespSet),
        !(frame is RespMap),
        0 <= k < wire(frame).len(),
    ensures
        frame_span(wire(frame).take(k)) == Err::<nat, Flaw>(Flaw::NotComplete),
{
    match frame {
        Frame::SimpleString(_) | Frame::Error(_) | Frame::Double(_) => {
            lemma_text_leaf_span_cut(frame, k);
        },
        Frame::Integer(_) | Frame::Boolean(_) | Frame::Null => {
            lemma_small_leaf_span_cut(frame, k);
        },
        _ => {
            lemma_null_leaf_span_cut(frame, k);
        },
    }
}

/// An integer on the wire is the marker, a body without a terminator and the
/// terminator.
pub proof fn lemma_integer_cut_shape(v: i64)
    ensures
        wire_integer(v).len() >= 5,
        no_crlf(wire_integer(v).subrange(1, wire_integer(v).len() - 2)),
        wire_integer(v) == seq![58u8] + wire_integer(v).subrange(1, wire_integer(v).len() - 2)
            + crlf(),
{
    let s = wire_integer(v);
    if v < 0 {
        lemma_small_bodies((-v) as nat);
        let body = seq![45u8] + decimal_digits((-v) as nat);
        assert(s =~= seq![58u8] + body + crlf());
        assert(s.subrange(1, s.len() - 2) =~= body);
    } else {
        lemma_small_bodies(v as nat);
        let body = seq![43u8] + decimal_digits(v as nat);
        assert(s =~= seq![58u8] + body + crlf());
        assert(s.subrange(1, s.len() - 2) =~= body);
    }
}

/// The oracle waits or knows: of a proper beginning of the encoding of a
/// canonical frame the oracle reports `NotComplete`, or else, once the headers that
/// decide it have arrived, the length of the whole encoding. It never reports a
/// wrong length, and never an invalid frame.
pub proof fn lemma_span_cut(frame: Frame, k: int)
    requires
        canonical(frame),
        wire(frame).len() <= usize::MAX,
        0 <= k < wire(frame).len(),
    ensures
        waits_or_knows(frame_span(wire(frame).take(k)), wire(frame).len()),
    decreases frame, 0nat,
{
    match frame {
        Frame::Array(items) => {
            lemma_wire_items_split(items, 0);
            let head = wire_header(42u8, items.len()).len();
            if k >= head {
                lemma_items_span_cut(items, 0, k - head, head);
            }
            lemma_array_span_cut(items, k);
        },
        Frame::RespSet(items) => {
            lemma_wire_items_split(items, 0);
            let head = wire_header(126u8, items.len()).len();
            if k >= head {
                lemma_items_span_cut(items, 0, k - head, head);
            }
            lemma_set_span_cut(items, k);
        },
        Frame::RespMap(entries) => {
            lemma_wire_entries_split(entries, 0);
            let head = wire_header(37u8, entries.len()).len();
            if k >= head {
                lemma_pairs_span_cut(entries, 0, k - head, head);
            }
            lemma_map_span_cut(entries, k);
        },
        Frame::BulkString(bytes) => {
            lemma_bulk_span_cut(bytes, k);
        },
        _ => {
            lemma_scalar_span_waits(frame, k);
        },
    }
}

/// The oracle waits until the headers decide: of a proper beginning of
/// the encoding of a canonical frame the oracle reports `NotComplete`, unless the
/// headers that have arrived already decide the length of the whole encoding.
pub proof fn lemma_span_cut_waits(frame: Frame, k: int)
    requires
        canonical(frame),
        wire(frame).len() <= usize::MAX,
        0 <= k < wire(frame).len(),
        frame_span(wire(frame).take(k)) != Ok::<nat, Flaw>(wire(frame).len()),
    ensures
        frame_span(wire(frame).take(k)) == Err::<nat, Flaw>(Flaw::NotComplete),
{
    lemma_span_cut(frame, k);
}

/// Nothing at all is `NotComplete` to the decoder.
pub proof fn lemma_waits_empty(s: Seq<u8>)
    requires
        s.len() == 0,
    ensures
        parse_frame(s) == Err::<(Frame, nat), Flaw>(Flaw::NotComplete),
{
    reveal(parse_frame);
}

/// Where the typed reading of the bytes is `NotComplete`, so is the frame.
pub proof fn lemma_waits_simple_string(s: Seq<u8>)
    requires
        s.len() > 0,
        s[0] == 43u8,
        parse_simple_string(s) == Err::<(Seq<char>, nat), Flaw>(Flaw::NotComplete),
    ensures
        parse_frame(s) == Err::<(Frame, nat), Flaw>(Flaw::NotComplete),
{
    reveal(parse_frame);
}

/// Where the typed reading of the bytes is `NotComplete`, so is the frame.
pub proof fn lemma_waits_simple_error(s: Seq<u8>)
    requires
        s.len() > 0,
        s[0] == 45u8,
        parse_simple_error(s) == Err::<(Seq<char>, nat), Flaw>(Flaw::NotComplete),
    ensures
        parse_frame(s) == Err::<(Frame, nat), Flaw>(Flaw::NotComplete),
{
    reveal(parse_frame);
}

/// Where the typed reading of the bytes is `NotComplete`, so is the frame.
pub proof fn lemma_waits_double(s: Seq<u8>)
    requires
        s.len() > 0,
        s[0] == 44u8,
        parse_double(s) == Err::<(Seq<char>, nat), Flaw>(Flaw::NotComplete),
    ensures
        parse_frame(s) == Err::<(Frame, nat), Flaw>(Flaw::NotComplete),
{
    reveal(parse_frame);
}

/// Where the typed reading of the bytes is `NotComplete`, so is the frame.
pub proof fn lemma_waits_integer(s: Seq<u8>)
    requires
        s.len() > 0,
        s[0] == 58u8,
        parse_integer(s) == Err::<(i64, nat), Flaw>(Flaw::NotComplete),
    ensures
        parse_frame(s) == Err::<(Frame, nat), Flaw>(Flaw::NotComplete),
{
    reveal(parse_frame);
}

/// Where the typed reading of the bytes is `NotComplete`, so is the frame.
pub proof fn lemma_waits_bool(s: Seq<u8>)
    requires
        s.len() > 0,
        s[0] == 35u8,
        parse_bool(s) == Err::<(bool, nat), Flaw>(Flaw::NotComplete),
    ensures
        parse_frame(s) == Err::<(Frame, nat), Flaw>(Flaw::NotComplete),
{
    reveal(parse_frame);
}

/// Where the typed reading of the bytes is `NotComplete`, so is the frame.
pub proof fn lemma_waits_null(s: Seq<u8>)
    requires
        s.len() > 0,
        s[0] == 95u8,
        parse_null(s) == Err::<((), nat), Flaw>(Flaw::NotComplete),
    ensures
        parse_frame(s) == Err::<(Frame, nat), Flaw>(Flaw::NotComplete),
{
    reveal(parse_frame);
}

/// Where the typed reading of the bytes is `NotComplete`, so is the frame.
pub proof fn lemma_waits_null_bulk_string(s: Seq<u8>)
    requires
        s.len() > 0,
        s[0] == 36u8,
        parse_null_bulk_string(s) == Err::<((), nat), Flaw>(Flaw::NotComplete),
    ensures
        parse_frame(s) == Err::<(Frame, nat), Flaw>(Flaw::NotComplete),
{
    reveal(parse_frame);
}

/// Where the typed reading of the bytes is `NotComplete`, so is the frame.
pub proof fn lemma_waits_null_array(s: Seq<u8>)
    requires
        s.len() > 0,
        s[0] == 42u8,
        parse_null_array(s) == Err::<((), nat), Flaw>(Flaw::NotComplete),
    ensures
        parse_frame(s) == Err::<(Frame, nat), Flaw>(Flaw::NotComplete),
{
    reveal(parse_frame);
}

/// Where the typed reading of the bytes is `NotComplete`, so is the frame.
pub proof fn lemma_waits_bulk_string(s: Seq<u8>)
    requires
        s.len() > 0,
        s[0] == 36u8,
        parse_null_bulk_string(s) is Err,
        parse_bulk_string(s) == Err::<(Seq<u8>, nat), Flaw>(Flaw::NotComplete),
    ensures
        parse_frame(s) == Err::<(Frame, nat), Flaw>(Flaw::NotComplete),
{
    reveal(parse_frame);
}

/// Where the typed reading of the bytes is `NotComplete`, so is the frame.
pub proof fn lemma_waits_array(s: Seq<u8>)
    requires
        s.len() > 0,
        s[0] == 42u8,
        parse_null_array(s) is Err,
        parse_array(s) == Err::<(Seq<Frame>, nat), Flaw>(Flaw::NotComplete),
    ensures
        parse_frame(s) == Err::<(Frame, nat), Flaw>(Flaw::NotComplete),
{
    reveal(parse_frame);
}

/// Where the typed reading of the bytes is `NotComplete`, so is the frame.
pub proof fn lemma_waits_set(s: Seq<u8>)
    requires
        s.len() > 0,
        s[0] == 126u8,
        parse_set(s) == Err::<(Seq<Frame>, nat), Flaw>(Flaw::NotComplete),
    ensures
        parse_frame(s) == Err::<(Frame, nat), Flaw>(Flaw::NotComplete),
{
    reveal(parse_frame);
}

/// Where the typed reading of the bytes is `NotComplete`, so is the frame.
pub proof fn lemma_waits_map(s: Seq<u8>)
    requires
        s.len() > 0,
        s[0] == 37u8,
        parse_map(s) == Err::<(Entries, nat), Flaw>(Flaw::NotComplete),
    ensures
        parse_frame(s) == Err::<(Frame, nat), Flaw>(Flaw::NotComplete),
{
    reveal(parse_frame);
}

/// A proper beginning of a literal token is `NotComplete`.
pub proof fn lemma_probe_cut(token: Seq<u8>, k: int, expected: Seq<char>, name: Seq<char>)
    requires
        encode_utf8(expected) == token,
        0 <= k < token.len(),
    ensures
        probe(token.take(k), expected, name) == Err::<nat, Flaw>(Flaw::NotComplete),
{
    let p = token.take(k);
    if k >= 2 {
        if token.is_prefix_of(p) {
            assert(false);
        }
        assert(token.subrange(0, k) =~= p);
    }
}

/// A proper beginning of a simple string is `NotComplete` to the decoder.
proof fn lemma_simple_string_decode_cut(text: Seq<char>, k: int)
    requires
        plain_line(text),
        0 <= k < wire_line(43u8, text).len(),
    ensures
        parse_frame(wire_line(43u8, text).take(k)) == Err::<(Frame, nat), Flaw>(
            Flaw::NotComplete,
        ),
{
    lemma_marker_bytes();
    let p = wire_line(43u8, text).take(k);
    if k > 0 {
        assert(p[0] == 43u8);
        lemma_line_cut("+"@, 43u8, encode_utf8(text), k);
        lemma_waits_simple_string(p);
    } else {
        lemma_waits_empty(p);
    }
}

/// A proper beginning of a simple error is `NotComplete` to the decoder.
proof fn lemma_simple_error_decode_cut(text: Seq<char>, k: int)
    requires
        plain_line(text),
        0 <= k < wire_line(45u8, text).len(),
    ensures
        parse_frame(wire_line(45u8, text).take(k)) == Err::<(Frame, nat), Flaw>(
            Flaw::NotComplete,
        ),
{
    lemma_marker_bytes();
    let p = wire_line(45u8, text).take(k);
    if k > 0 {
        assert(p[0] == 45u8);
        lemma_line_cut("-"@, 45u8, encode_utf8(text), k);
        lemma_waits_simple_error(p);
    } else {
        lemma_waits_empty(p);
    }
}

/// A proper beginning of a double is `NotComplete` to the decoder.
proof fn lemma_double_decode_cut(text: Seq<char>, k: int)
    requires
        plain_line(text),
        0 <= k < wire_line(44u8, text).len(),
    ensures
        parse_frame(wire_line(44u8, text).take(k)) == Err::<(Frame, nat), Flaw>(
            Flaw::NotComplete,
        ),
{
    lemma_marker_bytes();
    let p = wire_line(44u8, text).take(k);
    if k > 0 {
        assert(p[0] == 44u8);
        lemma_line_cut(","@, 44u8, encode_utf8(text), k);
        lemma_waits_double(p);
    } else {
        lemma_waits_empty(p);
    }
}

/// A proper beginning of an integer is `NotComplete` to the decoder.
proof fn lemma_integer_decode_cut(v: i64, k: int)
    requires
        0 <= k < wire_integer(v).len(),
    ensures
        parse_frame(wire_integer(v).take(k)) == Err::<(Frame, nat), Flaw>(Flaw::NotComplete),
{
    lemma_marker_bytes();
    lemma_integer_cut_shape(v);
    let body = wire_integer(v).subrange(1, wire_integer(v).len() - 2);
    let p = wire_integer(v).take(k);
    if k > 0 {
        assert(p[0] == 58u8);
        lemma_line_cut(":"@, 58u8, body, k);
        lemma_waits_integer(p);
    } else {
        lemma_waits_empty(p);
    }
}

/// A proper beginning of a boolean is `NotComplete` to the decoder.
proof fn lemma_bool_decode_cut(b: bool, k: int)
    requires
        0 <= k < 4,
    ensures
        parse_frame(wire_bool(b).take(k)) == Err::<(Frame, nat), Flaw>(Flaw::NotComplete),
{
    lemma_literal_bytes();
    let p = wire_bool(b).take(k);
    if k > 0 {
        assert(p[0] == 35u8);
        if b {
            lemma_probe_cut(wire_bool(true), k, "#t\r\n"@, "Bool"@);
        } else {
            lemma_probe_cut(wire_bool(false), k, "#f\r\n"@, "Bool"@);
            if k >= 2 {
                lemma_probe_differs(p, "#t\r\n"@, "Bool"@);
            }
        }
        lemma_waits_bool(p);
    } else {
        lemma_waits_empty(p);
    }
}

/// A proper beginning of the null is `NotComplete` to the decoder.
proof fn lemma_null_decode_cut(k: int)
    requires
        0 <= k < 3,
    ensures
        parse_frame(wire_null().take(k)) == Err::<(Frame, nat), Flaw>(Flaw::NotComplete),
{
    lemma_literal_bytes();
    let p = wire_null().take(k);
    if k > 0 {
        assert(p[0] == 95u8);
        lemma_probe_cut(wire_null(), k, "_\r\n"@, "Null"@);
        lemma_waits_null(p);
    } else {
        lemma_waits_empty(p);
    }
}

/// A proper beginning of the null array is `NotComplete` to the decoder.
proof fn lemma_null_array_decode_cut(k: int)
    requires
        0 <= k < 5,
    ensures
        parse_frame(wire_null_array().take(k)) == Err::<(Frame, nat), Flaw>(Flaw::NotComplete),
{
    lemma_literal_bytes();
    let p = wire_null_array().take(k);
    if k > 0 {
        assert(p[0] == 42u8);
        lemma_probe_cut(wire_null_array(), k, "*-1\r\n"@, "RespNullArray"@);
        lemma_waits_null_array(p);
    } else {
        lemma_waits_empty(p);
    }
}

/// A proper beginning of the null bulk string is `NotComplete` to the decoder.
proof fn lemma_null_bulk_decode_cut(k: int)
    requires
        0 <= k < 5,
    ensures
        parse_frame(wire_null_bulk_string().take(k)) == Err::<(Frame, nat), Flaw>(
            Flaw::NotComplete,
        ),
{
    lemma_literal_bytes();
    let p = wire_null_bulk_string().take(k);
    if k > 0 {
        assert(p[0] == 36u8);
        lemma_probe_cut(wire_null_bulk_string(), k, "$-1\r\n"@, "RespNullBulkString"@);
        lemma_waits_null_bulk_string(p);
    } else {
        lemma_waits_empty(p);
    }
}

/// A proper beginning of a bulk string is `NotComplete` to the decoder.
proof fn lemma_bulk_decode_cut(bytes: Seq<u8>, k: int)
    requires
        wire_bulk(bytes).len() <= usize::MAX,
        0 <= k < wire_bulk(bytes).len(),
    ensures
        parse_frame(wire_bulk(bytes).take(k)) == Err::<(Frame, nat), Flaw>(Flaw::NotComplete),
{
    lemma_literal_bytes();
    lemma_bulk_span_cut(bytes, k);
    lemma_decimal_digits(bytes.len());
    let p = wire_bulk(bytes).take(k);
    let d = decimal_digits(bytes.len());
    if k >= 2 {
        assert(p[0] == 36u8);
        assert(p[1] == d[0]);
        assert(is_digit(d[0]));
        lemma_probe_differs(p, "$-1\r\n"@, "RespNullBulkString"@);
        lemma_waits_bulk_string(p);
    } else if k == 1 {
        assert(p[0] == 36u8);
        lemma_waits_null_bulk_string(p);
    } else {
        lemma_waits_empty(p);
    }
}

/// What a proper beginning of a container is as a container, given what the oracle
/// reports of it.
proof fn lemma_container_cut(prefix: Seq<char>, marker: u8, count: nat, tail: Seq<u8>, k: int)
    requires
        encode_utf8(prefix) == seq![marker],
        count <= usize::MAX,
        0 <= k < wire_header(marker, count).len() + tail.len(),
    ensures
        length_header((wire_header(marker, count) + tail).take(k), prefix) is Ok
            || length_header((wire_header(marker, count) + tail).take(k), prefix) == Err::<
            (int, int),
            Flaw,
        >(Flaw::NotComplete),
        k >= 2 ==> is_digit((wire_header(marker, count) + tail).take(k)[1]),
        k >= 1 ==> (wire_header(marker, count) + tail).take(k)[0] == marker,
{
    lemma_container_span_cut(prefix, marker, count, tail, k);
}

/// A proper beginning of an array is `NotComplete` to the decoder, if the oracle
/// reports `NotComplete` of it or the length of the whole encoding.
proof fn lemma_array_decode_cut(items: Seq<Frame>, k: int)
    requires
        wire(Frame::Array(items)).len() <= usize::MAX,
        0 <= k < wire(Frame::Array(items)).len(),
        waits_or_knows(
            frame_span(wire(Frame::Array(items)).take(k)),
            wire(Frame::Array(items)).len(),
        ),
    ensures
        parse_frame(wire(Frame::Array(items)).take(k)) == Err::<(Frame, nat), Flaw>(
            Flaw::NotComplete,
        ),
{
    lemma_marker_bytes();
    lemma_literal_bytes();
    lemma_wire_items_split(items, 0);
    lemma_wire_tail_len(items, 0);
    let tail = wire_tail(items, 0);
    let p = wire(Frame::Array(items)).take(k);
    assert(wire(Frame::Array(items)) =~= wire_header(42u8, items.len()) + tail);
    lemma_container_cut("*"@, 42u8, items.len(), tail, k);
    lemma_frame_span_dispatch(p);
    lemma_containers_unfold(p);
    if k >= 2 {
        lemma_probe_differs(p, "*-1\r\n"@, "RespNullArray"@);
        lemma_waits_array(p);
    } else if k == 1 {
        lemma_probe_cut(wire_null_array(), 1, "*-1\r\n"@, "RespNullArray"@);
        assert(p =~= wire_null_array().take(1));
        lemma_waits_null_array(p);
    } else {
        lemma_waits_empty(p);
    }
}

/// A proper beginning of a set is `NotComplete` to the decoder, if the oracle
/// reports `NotComplete` of it or the length of the whole encoding.
proof fn lemma_set_decode_cut(items: Seq<Frame>, k: int)
    requires
        wire(Frame::RespSet(items)).len() <= usize::MAX,
        0 <= k < wire(Frame::RespSet(items)).len(),
        waits_or_knows(
            frame_span(wire(Frame::RespSet(items)).take(k)),
            wire(Frame::RespSet(items)).len(),
        ),
    ensures
        parse_frame(wire(Frame::RespSet(items)).take(k)) == Err::<(Frame, nat), Flaw>(
            Flaw::NotComplete,
        ),
{
    lemma_marker_bytes();
    lemma_wire_items_split(items, 0);
    lemma_wire_tail_len(items, 0);
    let tail = wire_tail(items, 0);
    let p = wire(Frame::RespSet(items)).take(k);
    assert(wire(Frame::RespSet(items)) =~= wire_header(126u8, items.len()) + tail);
    lemma_container_cut("~"@, 126u8, items.len(), tail, k);
    lemma_frame_span_dispatch(p);
    lemma_containers_unfold(p);
    if k >= 1 {
        lemma_waits_set(p);
    } else {
        lemma_waits_empty(p);
    }
}

/// A proper beginning of a map is `NotComplete` to the decoder, if the oracle
/// reports `NotComplete` of it or the length of the whole encoding.
proof fn lemma_map_decode_cut(entries: Entries, k: int)
    requires
        wire(Frame::RespMap(entries)).len() <= usize::MAX,
        0 <= k < wire(Frame::RespMap(entries)).len(),
        waits_or_knows(
            frame_span(wire(Frame::RespMap(entries)).take(k)),
            wire(Frame::RespMap(entries)).len(),
        ),
    ensures
        parse_frame(wire(Frame::RespMap(entries)).take(k)) == Err::<(Frame, nat), Flaw>(
            Flaw::NotComplete,
        ),
{
    lemma_marker_bytes();
    lemma_wire_entries_split(entries, 0);
    lemma_wire_entries_tail_len(entries, 0);
    let tail = wire_entries_tail(entries, 0);
    let p = wire(Frame::RespMap(entries)).take(k);
    assert(wire(Frame::RespMap(entries)) =~= wire_header(37u8, entries.len()) + tail);
    lemma_container_cut("%"@, 37u8, entries.len(), tail, k);
    lemma_frame_span_dispatch(p);
    lemma_containers_unfold(p);
    if k >= 1 {
        lemma_waits_map(p);
    } else {
        lemma_waits_empty(p);
    }
}

/// A proper beginning of a simple string, a simple error or a double is
/// `NotComplete` to the decoder.
proof fn lemma_text_leaf_decode_cut(frame: Frame, k: int)
    requires
        canonical(frame),
        frame is SimpleString || frame is Error || frame is Double,
        0 <= k < wire(frame).len(),
    ensures
        parse_frame(wire(frame).take(k)) == Err::<(Frame, nat), Flaw>(Flaw::NotComplete),
{
    match frame {
        Frame::SimpleString(text) => {
            lemma_simple_string_decode_cut(text, k);
        },
        Frame::Error(text) => {
            lemma_simple_error_decode_cut(text, k);
        },
        Frame::Double(text) => {
            lemma_double_decode_cut(text, k);
        },
        _ => {},
    }
}

/// A proper beginning of an integer, a boolean or the null is `NotComplete` to the
/// decoder.
proof fn lemma_small_leaf_decode_cut(frame: Frame, k: int)
    requires
        frame is Integer || frame is Boolean || frame is Null,
        0 <= k < wire(frame).len(),
    ensures
        parse_frame(wire(frame).take(k)) == Err::<(Frame, nat), Flaw>(Flaw::NotComplete),
{
    match frame {
        Frame::Integer(v) => {
            lemma_integer_decode_cut(v, k);
        },
        Frame::Boolean(b) => {
            lemma_bool_decode_cut(b, k);
        },
        Frame::Null => {
            lemma_null_decode_cut(k);
        },
        _ => {},
    }
}

/// A proper beginning of a bulk string or of one of the two null forms is
/// `NotComplete` to the decoder.
proof fn lemma_bulk_leaf_decode_cut(frame: Frame, k: int)
    requires
        wire(frame).len() <= usize::MAX,
        frame is BulkString || frame is NullArray || frame is NullBulkString,
        0 <= k < wire(frame).len(),
    ensures
        parse_frame(wire(frame).take(k)) == Err::<(Frame, nat), Flaw>(Flaw::NotComplete),
{
    match frame {
        Frame::NullArray => {
            lemma_null_array_decode_cut(k);
        },
        Frame::NullBulkString => {
            lemma_null_bulk_decode_cut(k);
        },
        Frame::BulkString(bytes) => {
            lemma_bulk_decode_cut(bytes, k);
        },
        _ => {},
    }
}

/// The decoder waits: a proper beginning of the encoding of a canonical frame is
/// `NotComplete` to the decoder.
pub proof fn lemma_decode_cut(frame: Frame, k: int)
    requires
        canonical(frame),
        wire(frame).len() <= usize::MAX,
        0 <= k < wire(frame).len(),
    ensures
        parse_frame(wire(frame).take(k)) == Err::<(Frame, nat), Flaw>(Flaw::NotComplete),
{
    match frame {
        Frame::Array(items) => {
            lemma_span_cut(frame, k);
            lemma_array_decode_cut(items, k);
        },
        Frame::RespSet(items) => {
            lemma_span_cut(frame, k);
            lemma_set_decode_cut(items, k);
        },
        Frame::RespMap(entries) => {
            lemma_span_cut(frame, k);
            lemma_map_decode_cut(entries, k);
        },
        Frame::SimpleString(_) | Frame::Error(_) | Frame::Double(_) => {
            lemma_text_leaf_decode_cut(frame, k);
        },
        Frame::Integer(_) | Frame::Boolean(_) | Frame::Null => {
            lemma_small_leaf_decode_cut(frame, k);
        },
        _ => {
            lemma_bulk_leaf_decode_cut(frame, k);
        },
    }
}

} // verus!
