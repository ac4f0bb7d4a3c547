//! What holds of the codec as a whole: the frames whose encoding reads back as
//! themselves, the exactness of the length oracle on their encodings, and what the
//! oracle and the decoder say of an encoding that has only partly arrived.

use crate::decimal::decimal_digits;
use crate::decimal::is_digit;
use crate::decimal::lemma_decimal_digits;
use crate::decimal::lemma_parse_unsigned_digits;
use crate::decimal::parse_unsigned;
use crate::double::float_check;
use crate::encode::crlf;
use crate::encode::wire;
use crate::encode::wire_bulk;
use crate::encode::wire_entries;
use crate::encode::wire_header;
use crate::encode::wire_items;
use crate::encode::wire_line;
use crate::error::Flaw;
use crate::frame::keys_ascending;
use crate::frame::Entries;
use crate::frame::Frame;
use crate::length::array_span;
use crate::length::bulk_span;
use crate::length::frame_span;
use crate::length::is_null_sentinel;
use crate::length::items_span;
use crate::length::lemma_container_spans_unfold;
use crate::length::lemma_frame_span_dispatch;
use crate::length::lemma_items_span_unfold;
use crate::length::lemma_pair_span_unfold;
use crate::length::lemma_pairs_span_unfold;
use crate::length::pair_span;
use crate::length::pairs_span;
use crate::length::rest_at;
use crate::length::scalar_span;
use crate::lines::lemma_line_cut;
use crate::lines::lemma_line_end;
use crate::lines::lemma_marker_bytes;
use crate::lines::no_crlf;
use crate::scan::crlf_at;
use crate::scan::header_digits;
use crate::scan::length_header;
use crate::scan::simple_frame_end;
use vstd::prelude::*;
use vstd::utf8::encode_utf8;

verus! {

/// A text that can stand in a line: its bytes hold no terminator.
pub open spec fn plain_line(text: Seq<char>) -> bool {
    no_crlf(encode_utf8(text))
}

/// A text that is a floating-point literal.
#[verifier::opaque]
pub open spec fn literal_text(text: Seq<char>) -> bool {
    float_check(encode_utf8(text)) is Ok
}

/// A frame whose encoding reads back as the frame itself: its simple strings,
/// errors and map keys hold no terminator, its doubles are floating-point literals,
/// and the entries of its maps stand in ascending order of their keys.
pub open spec fn canonical(frame: Frame) -> bool
    decreases frame,
{
    match frame {
        Frame::SimpleString(text) => plain_line(text),
        Frame::Error(text) => plain_line(text),
        Frame::Double(text) => plain_line(text) && literal_text(text),
        Frame::Array(items) => forall|i: int|
            0 <= i < items.len() ==> canonical(#[trigger] items[i]),
        Frame::RespSet(items) => forall|i: int|
            0 <= i < items.len() ==> canonical(#[trigger] items[i]),
        Frame::RespMap(entries) => keys_ascending(entries) && forall|i: int|
            0 <= i < entries.len() ==> plain_line((#[trigger] entries[i]).0) && canonical(
                entries[i].1,
            ),
        _ => true,
    }
}

/// The bytes of the items from index `from` on, one frame after the other.
pub open spec fn wire_tail(items: Seq<Frame>, from: int) -> Seq<u8>
    decreases items.len() - from,
{
    if from < 0 || from >= items.len() {
        Seq::empty()
    } else {
        wire(items[from]) + wire_tail(items, from + 1)
    }
}

/// The bytes of one entry: its key as a simple string, and then its frame.
pub open spec fn wire_entry(entry: (Seq<char>, Frame)) -> Seq<u8> {
    wire_line(43u8, entry.0) + wire(entry.1)
}

/// The bytes of the entries from index `from` on, one after the other.
pub open spec fn wire_entries_tail(entries: Entries, from: int) -> Seq<u8>
    decreases entries.len() - from,
{
    if from < 0 || from >= entries.len() {
        Seq::empty()
    } else {
        wire_entry(entries[from]) + wire_entries_tail(entries, from + 1)
    }
}

/// The bytes of all items are those of the first `n` and then those of the rest.
pub proof fn lemma_wire_items_split(items: Seq<Frame>, n: int)
    requires
        0 <= n <= items.len(),
    ensures
        wire_items(items, items.len()) == wire_items(items, n as nat) + wire_tail(items, n),
    decreases items.len() - n,
{
    if n < items.len() {
        lemma_wire_items_split(items, n + 1);
        assert(wire_items(items, (n + 1) as nat) + wire_tail(items, n + 1) =~= wire_items(
            items,
            n as nat,
        ) + wire_tail(items, n));
    } else {
        assert(wire_items(items, n as nat) + wire_tail(items, n) =~= wire_items(items, n as nat));
    }
}

/// The bytes of all entries are those of the first `n` and then those of the rest.
pub proof fn lemma_wire_entries_split(entries: Entries, n: int)
    requires
        0 <= n <= entries.len(),
    ensures
        wire_entries(entries, entries.len()) == wire_entries(entries, n as nat)
            + wire_entries_tail(entries, n),
    decreases entries.len() - n,
{
    if n < entries.len() {
        lemma_wire_entries_split(entries, n + 1);
        assert(wire_entries(entries, (n + 1) as nat) + wire_entries_tail(entries, n + 1)
            =~= wire_entries(entries, n as nat) + wire_entries_tail(entries, n));
    } else {
        assert(wire_entries(entries, n as nat) + wire_entries_tail(entries, n) =~= wire_entries(
            entries,
            n as nat,
        ));
    }
}

/// Digits hold no terminator, and they are not the `-1` of the null forms.
pub proof fn lemma_digits_plain(n: nat)
    ensures
        no_crlf(decimal_digits(n)),
        !is_null_sentinel(decimal_digits(n)),
{
    lemma_decimal_digits(n);
    let d = decimal_digits(n);
    assert(is_digit(d[0]));
    assert forall|i: int| !crlf_at(d, i) by {
        if crlf_at(d, i) {
            assert(is_digit(d[i]));
        }
    }
}

/// The header of a container or a bulk string reads back as the count that it was
/// written with, and ends where its terminator stands.
pub proof fn lemma_header(prefix: Seq<char>, marker: u8, count: nat, rest: Seq<u8>)
    requires
        encode_utf8(prefix) == seq![marker],
        count <= usize::MAX,
    ensures
        simple_frame_end(wire_header(marker, count) + rest, prefix) == Ok::<int, Flaw>(
            (decimal_digits(count).len() + 1) as int,
        ),
        header_digits(
            wire_header(marker, count) + rest,
            prefix,
            (decimal_digits(count).len() + 1) as int,
        ) == decimal_digits(count),
        length_header(wire_header(marker, count) + rest, prefix) == Ok::<(int, int), Flaw>(
            ((decimal_digits(count).len() + 1) as int, count as int),
        ),
        wire_header(marker, count).len() == decimal_digits(count).len() + 3,
{
    lemma_digits_plain(count);
    lemma_line_end(prefix, marker, decimal_digits(count), rest);
    lemma_parse_unsigned_digits(count, usize::MAX as int);
}

/// A proper beginning of a header is `NotComplete`.
pub proof fn lemma_header_cut(prefix: Seq<char>, marker: u8, count: nat, k: int)
    requires
        encode_utf8(prefix) == seq![marker],
        0 <= k < wire_header(marker, count).len(),
    ensures
        simple_frame_end(wire_header(marker, count).take(k), prefix) == Err::<int, Flaw>(
            Flaw::NotComplete,
        ),
        length_header(wire_header(marker, count).take(k), prefix) == Err::<(int, int), Flaw>(
            Flaw::NotComplete,
        ),
{
    lemma_digits_plain(count);
    lemma_line_cut(prefix, marker, decimal_digits(count), k);
}

/// The encoding of every frame has at least three bytes and starts with the marker
/// of its type.
pub proof fn lemma_wire_start(frame: Frame)
    ensures
        wire(frame).len() >= 3,
        wire(frame)[0] == marker_of(frame),
{
    match frame {
        Frame::BulkString(bytes) => {
            lemma_decimal_digits(bytes.len());
        },
        Frame::Array(items) => {
            lemma_decimal_digits(items.len());
        },
        Frame::RespSet(items) => {
            lemma_decimal_digits(items.len());
        },
        Frame::RespMap(entries) => {
            lemma_decimal_digits(entries.len());
        },
        _ => {},
    }
}

/// The rest of the items takes at least one byte for each of them.
pub proof fn lemma_wire_tail_len(items: Seq<Frame>, from: int)
    requires
        0 <= from <= items.len(),
    ensures
        wire_tail(items, from).len() >= items.len() - from,
    decreases items.len() - from,
{
    if from < items.len() {
        lemma_wire_start(items[from]);
        lemma_wire_tail_len(items, from + 1);
    }
}

/// The rest of the entries takes at least one byte for each of them.
pub proof fn lemma_wire_entries_tail_len(entries: Entries, from: int)
    requires
        0 <= from <= entries.len(),
    ensures
        wire_entries_tail(entries, from).len() >= entries.len() - from,
    decreases entries.len() - from,
{
    if from < entries.len() {
        lemma_wire_entries_tail_len(entries, from + 1);
    }
}

/// The span of a line is its length, whatever follows it.
pub proof fn lemma_line_span(prefix: Seq<char>, marker: u8, body: Seq<u8>, rest: Seq<u8>)
    requires
        encode_utf8(prefix) == seq![marker],
        no_crlf(body),
    ensures
        scalar_span(seq![marker] + body + crlf() + rest, prefix) == Ok::<nat, Flaw>(
            body.len() + 3,
        ),
{
    lemma_line_end(prefix, marker, body, rest);
}

/// The body of an integer, a boolean and the null forms holds no terminator.
pub proof fn lemma_small_bodies(n: nat)
    ensures
        no_crlf(seq![45u8] + decimal_digits(n)),
        no_crlf(seq![43u8] + decimal_digits(n)),
        no_crlf(seq![116u8]),
        no_crlf(seq![102u8]),
        no_crlf(Seq::<u8>::empty()),
        no_crlf(seq![45u8, 49u8]),
{
    lemma_decimal_digits(n);
    let d = decimal_digits(n);
    assert forall|i: int| !crlf_at(seq![45u8] + d, i) by {
        if crlf_at(seq![45u8] + d, i) {
            if i > 0 {
                assert(is_digit(d[i - 1]));
            }
        }
    }
    assert forall|i: int| !crlf_at(seq![43u8] + d, i) by {
        if crlf_at(seq![43u8] + d, i) {
            if i > 0 {
                assert(is_digit(d[i - 1]));
            }
        }
    }
}

/// The length oracle is exact on the encoding of a bulk string, whatever follows it.
pub proof fn lemma_bulk_span_exact(bytes: Seq<u8>, rest: Seq<u8>)
    requires
        wire_bulk(bytes).len() <= usize::MAX,
    ensures
        bulk_span(wire_bulk(bytes) + rest) == Ok::<nat, Flaw>(wire_bulk(bytes).len()),
        length_header(wire_bulk(bytes) + rest, "$"@) == Ok::<(int, int), Flaw>(
            ((decimal_digits(bytes.len()).len() + 1) as int, bytes.len() as int),
        ),
{
    lemma_marker_bytes();
    let tail = bytes + crlf() + rest;
    assert(wire_bulk(bytes) + rest =~= wire_header(36u8, bytes.len()) + tail);
    lemma_header("$"@, 36u8, bytes.len(), tail);
    lemma_digits_plain(bytes.len());
}

/// The length oracle is exact on the rest of the items of a container, whatever
/// follows them.
pub proof fn lemma_items_span_exact(items: Seq<Frame>, from: int, rest: Seq<u8>, base: nat)
    requires
        0 <= from <= items.len(),
        forall|i: int| 0 <= i < items.len() ==> canonical(#[trigger] items[i]),
        base + wire_tail(items, from).len() <= usize::MAX,
    ensures
        items_span(wire_tail(items, from) + rest, (items.len() - from) as nat, base) == Ok::<
            nat,
            Flaw,
        >(base + wire_tail(items, from).len()),
    decreases items, items.len() - from,
{
    lemma_items_span_unfold(
        wire_tail(items, from) + rest,
        (items.len() - from) as nat,
        base,
    );
    if from < items.len() {
        let first = wire(items[from]);
        let after = wire_tail(items, from + 1) + rest;
        let t = wire_tail(items, from) + rest;
        assert(t =~= first + after);
        lemma_span_exact(items[from], after);
        assert(rest_at(t, first.len() as int) =~= after);
        lemma_items_span_exact(items, from + 1, rest, base + first.len());
    }
}

/// The length oracle is exact on one entry of a map, if it is on the entry's frame.
pub proof fn lemma_pair_span_exact(key: Seq<char>, value: Frame, after: Seq<u8>)
    requires
        plain_line(key),
        frame_span(wire(value) + after) == Ok::<nat, Flaw>(wire(value).len()),
        wire_entry((key, value)).len() <= usize::MAX,
    ensures
        pair_span(wire_entry((key, value)) + after) == Ok::<nat, Flaw>(
            wire_entry((key, value)).len(),
        ),
{
    let line = wire_line(43u8, key);
    let t = wire_entry((key, value)) + after;
    lemma_marker_bytes();
    lemma_pair_span_unfold(t);
    assert(t =~= seq![43u8] + encode_utf8(key) + crlf() + (wire(value) + after));
    lemma_line_span("+"@, 43u8, encode_utf8(key), wire(value) + after);
    assert(rest_at(t, line.len() as int) =~= wire(value) + after);
}

/// The length oracle is exact on the rest of the entries of a map, whatever follows
/// them.
pub proof fn lemma_pairs_span_exact(entries: Entries, from: int, rest: Seq<u8>, base: nat)
    requires
        0 <= from <= entries.len(),
        forall|i: int|
            0 <= i < entries.len() ==> plain_line((#[trigger] entries[i]).0) && canonical(
                entries[i].1,
            ),
        base + wire_entries_tail(entries, from).len() <= usize::MAX,
    ensures
        pairs_span(
            wire_entries_tail(entries, from) + rest,
            (entries.len() - from) as nat,
            base,
        ) == Ok::<nat, Flaw>(base + wire_entries_tail(entries, from).len()),
    decreases entries, entries.len() - from,
{
    lemma_pairs_span_unfold(
        wire_entries_tail(entries, from) + rest,
        (entries.len() - from) as nat,
        base,
    );
    if from < entries.len() {
        let entry = entries[from];
        let first = wire_entry(entry);
        let after = wire_entries_tail(entries, from + 1) + rest;
        let t = wire_entries_tail(entries, from) + rest;
        assert(t =~= first + after);
        assert(pair_span(t) == Ok::<nat, Flaw>(first.len())) by {
            lemma_span_exact(entry.1, after);
            lemma_pair_span_exact(entry.0, entry.1, after);
        }
        assert(rest_at(t, first.len() as int) =~= after);
        lemma_pairs_span_exact(entries, from + 1, rest, base + first.len());
    }
}

/// The length oracle is exact on a line of text.
proof fn lemma_text_span_exact(prefix: Seq<char>, marker: u8, text: Seq<char>, rest: Seq<u8>)
    requires
        encode_utf8(prefix) == seq![marker],
        plain_line(text),
    ensures
        scalar_span(wire_line(marker, text) + rest, prefix) == Ok::<nat, Flaw>(
            wire_line(marker, text).len(),
        ),
{
    lemma_line_span(prefix, marker, encode_utf8(text), rest);
}

/// The length oracle is exact on an integer.
proof fn lemma_integer_span_exact(v: i64, rest: Seq<u8>)
    ensures
        scalar_span(crate::encode::wire_integer(v) + rest, ":"@) == Ok::<nat, Flaw>(
            crate::encode::wire_integer(v).len(),
        ),
{
    lemma_marker_bytes();
    let s = crate::encode::wire_integer(v) + rest;
    if v < 0 {
        lemma_small_bodies((-v) as nat);
        let body = seq![45u8] + decimal_digits((-v) as nat);
        assert(s =~= seq![58u8] + body + crlf() + rest);
        lemma_line_span(":"@, 58u8, body, rest);
    } else {
        lemma_small_bodies(v as nat);
        let body = seq![43u8] + decimal_digits(v as nat);
        assert(s =~= seq![58u8] + body + crlf() + rest);
        lemma_line_span(":"@, 58u8, body, rest);
    }
}

/// The length oracle is exact on a boolean and on the null.
proof fn lemma_literal_span_exact(b: bool, rest: Seq<u8>)
    ensures
        scalar_span(crate::encode::wire_bool(b) + rest, "#"@) == Ok::<nat, Flaw>(4nat),
        scalar_span(crate::encode::wire_null() + rest, "_"@) == Ok::<nat, Flaw>(3nat),
{
    lemma_marker_bytes();
    lemma_small_bodies(0);
    let body = if b {
        seq![116u8]
    } else {
        seq![102u8]
    };
    assert(crate::encode::wire_bool(b) + rest =~= seq![35u8] + body + crlf() + rest);
    lemma_line_span("#"@, 35u8, body, rest);
    assert(crate::encode::wire_null() + rest =~= seq![95u8] + Seq::<u8>::empty() + crlf()
        + rest);
    lemma_line_span("_"@, 95u8, Seq::<u8>::empty(), rest);
}

/// The length oracle is exact on the null array and on the null bulk string.
proof fn lemma_null_forms_span_exact(rest: Seq<u8>)
    ensures
        array_span(crate::encode::wire_null_array() + rest) == Ok::<nat, Flaw>(5nat),
        bulk_span(crate::encode::wire_null_bulk_string() + rest) == Ok::<nat, Flaw>(5nat),
{
    lemma_marker_bytes();
    lemma_small_bodies(0);
    let body = seq![45u8, 49u8];
    let a = crate::encode::wire_null_array() + rest;
    lemma_container_spans_unfold(a);
    assert(a =~= seq![42u8] + body + crlf() + rest);
    lemma_line_end("*"@, 42u8, body, rest);
    assert(header_digits(a, "*"@, 3) =~= body);
    let b = crate::encode::wire_null_bulk_string() + rest;
    assert(b =~= seq![36u8] + body + crlf() + rest);
    lemma_line_end("$"@, 36u8, body, rest);
    assert(header_digits(b, "$"@, 3) =~= body);
}

/// The span of a container is that of its header and its items, if the oracle is
/// exact on the items.
proof fn lemma_container_span(
    prefix: Seq<char>,
    marker: u8,
    count: nat,
    tail: Seq<u8>,
    total: nat,
)
    requires
        encode_utf8(prefix) == seq![marker],
        count <= usize::MAX,
    ensures
        length_header(wire_header(marker, count) + tail, prefix) == Ok::<(int, int), Flaw>(
            ((decimal_digits(count).len() + 1) as int, count as int),
        ),
        simple_frame_end(wire_header(marker, count) + tail, prefix) == Ok::<int, Flaw>(
            (decimal_digits(count).len() + 1) as int,
        ),
        !is_null_sentinel(
            header_digits(
                wire_header(marker, count) + tail,
                prefix,
                (decimal_digits(count).len() + 1) as int,
            ),
        ),
        parse_unsigned(
            header_digits(
                wire_header(marker, count) + tail,
                prefix,
                (decimal_digits(count).len() + 1) as int,
            ),
            usize::MAX as int,
        ) == Ok::<int, crate::error::IntErrorKind>(count as int),
        rest_at(wire_header(marker, count) + tail, (decimal_digits(count).len() + 3) as int)
            == tail,
        wire_header(marker, count).len() == decimal_digits(count).len() + 3,
{
    lemma_header(prefix, marker, count, tail);
    lemma_digits_plain(count);
    lemma_parse_unsigned_digits(count, usize::MAX as int);
    assert(rest_at(wire_header(marker, count) + tail, (decimal_digits(count).len() + 3) as int)
        =~= tail);
}

/// The length oracle is exact on an array, if it is on the array's items.
proof fn lemma_array_span_exact(items: Seq<Frame>, rest: Seq<u8>)
    requires
        wire(Frame::Array(items)).len() <= usize::MAX,
        items_span(
            wire_tail(items, 0) + rest,
            items.len(),
            wire_header(42u8, items.len()).len(),
        ) == Ok::<nat, Flaw>(wire_header(42u8, items.len()).len() + wire_tail(items, 0).len()),
    ensures
        frame_span(wire(Frame::Array(items)) + rest) == Ok::<nat, Flaw>(
            wire(Frame::Array(items)).len(),
        ),
{
    lemma_wire_start(Frame::Array(items));
    assert((wire(Frame::Array(items)) + rest)[0] == 42u8);
    lemma_frame_span_dispatch(wire(Frame::Array(items)) + rest);
    lemma_container_spans_unfold(wire(Frame::Array(items)) + rest);
    lemma_marker_bytes();
    let tail = wire_tail(items, 0) + rest;
    lemma_wire_items_split(items, 0);
    lemma_wire_tail_len(items, 0);
    assert(wire(Frame::Array(items)) + rest =~= wire_header(42u8, items.len()) + tail);
    lemma_container_span("*"@, 42u8, items.len(), tail, 0);
}

/// The length oracle is exact on a set, if it is on the set's items.
proof fn lemma_set_span_exact(items: Seq<Frame>, rest: Seq<u8>)
    requires
        wire(Frame::RespSet(items)).len() <= usize::MAX,
        items_span(
            wire_tail(items, 0) + rest,
            items.len(),
            wire_header(126u8, items.len()).len(),
        ) == Ok::<nat, Flaw>(wire_header(126u8, items.len()).len() + wire_tail(items, 0).len()),
    ensures
        frame_span(wire(Frame::RespSet(items)) + rest) == Ok::<nat, Flaw>(
            wire(Frame::RespSet(items)).len(),
        ),
{
    lemma_wire_start(Frame::RespSet(items));
    assert((wire(Frame::RespSet(items)) + rest)[0] == 126u8);
    lemma_frame_span_dispatch(wire(Frame::RespSet(items)) + rest);
    lemma_container_spans_unfold(wire(Frame::RespSet(items)) + rest);
    lemma_marker_bytes();
    let tail = wire_tail(items, 0) + rest;
    lemma_wire_items_split(items, 0);
    lemma_wire_tail_len(items, 0);
    assert(wire(Frame::RespSet(items)) + rest =~= wire_header(126u8, items.len()) + tail);
    lemma_container_span("~"@, 126u8, items.len(), tail, 0);
}

/// The length oracle is exact on a map, if it is on the map's entries.
proof fn lemma_map_span_exact(entries: Entries, rest: Seq<u8>)
    requires
        wire(Frame::RespMap(entries)).len() <= usize::MAX,
        pairs_span(
            wire_entries_tail(entries, 0) + rest,
            entries.len(),
            wire_header(37u8, entries.len()).len(),
        ) == Ok::<nat, Flaw>(
            wire_header(37u8, entries.len()).len() + wire_entries_tail(entries, 0).len(),
        ),
    ensures
        frame_span(wire(Frame::RespMap(entries)) + rest) == Ok::<nat, Flaw>(
            wire(Frame::RespMap(entries)).len(),
        ),
{
    lemma_wire_start(Frame::RespMap(entries));
    assert((wire(Frame::RespMap(entries)) + rest)[0] == 37u8);
    lemma_frame_span_dispatch(wire(Frame::RespMap(entries)) + rest);
    lemma_container_spans_unfold(wire(Frame::RespMap(entries)) + rest);
    lemma_marker_bytes();
    let tail = wire_entries_tail(entries, 0) + rest;
    lemma_wire_entries_split(entries, 0);
    lemma_wire_entries_tail_len(entries, 0);
    assert(wire(Frame::RespMap(entries)) + rest =~= wire_header(37u8, entries.len()) + tail);
    lemma_container_span("%"@, 37u8, entries.len(), tail, 0);
}

/// The length oracle is exact on a simple string, a simple error and a double.
proof fn lemma_text_frame_span(marker: u8, text: Seq<char>, rest: Seq<u8>)
    requires
        marker == 43u8 || marker == 45u8 || marker == 44u8,
        plain_line(text),
    ensures
        frame_span(wire_line(marker, text) + rest) == Ok::<nat, Flaw>(
            wire_line(marker, text).len(),
        ),
{
    lemma_marker_bytes();
    assert((wire_line(marker, text) + rest)[0] == marker);
    lemma_frame_span_dispatch(wire_line(marker, text) + rest);
    if marker == 43u8 {
        lemma_text_span_exact("+"@, 43u8, text, rest);
    } else if marker == 45u8 {
        lemma_text_span_exact("-"@, 45u8, text, rest);
    } else {
        lemma_text_span_exact(","@, 44u8, text, rest);
    }
}

/// The length oracle is exact on an integer, a boolean and the null.
proof fn lemma_small_frame_span(v: i64, b: bool, rest: Seq<u8>)
    ensures
        frame_span(crate::encode::wire_integer(v) + rest) == Ok::<nat, Flaw>(
            crate::encode::wire_integer(v).len(),
        ),
        frame_span(crate::encode::wire_bool(b) + rest) == Ok::<nat, Flaw>(4nat),
        frame_span(crate::encode::wire_null() + rest) == Ok::<nat, Flaw>(3nat),
{
    lemma_integer_span_exact(v, rest);
    lemma_literal_span_exact(b, rest);
    assert((crate::encode::wire_integer(v) + rest)[0] == 58u8);
    assert((crate::encode::wire_bool(b) + rest)[0] == 35u8);
    assert((crate::encode::wire_null() + rest)[0] == 95u8);
    lemma_frame_span_dispatch(crate::encode::wire_integer(v) + rest);
    lemma_frame_span_dispatch(crate::encode::wire_bool(b) + rest);
    lemma_frame_span_dispatch(crate::encode::wire_null() + rest);
}

/// The length oracle is exact on a bulk string.
proof fn lemma_bulk_frame_span(bytes: Seq<u8>, rest: Seq<u8>)
    requires
        wire_bulk(bytes).len() <= usize::MAX,
    ensures
        frame_span(wire_bulk(bytes) + rest) == Ok::<nat, Flaw>(wire_bulk(bytes).len()),
{
    lemma_bulk_span_exact(bytes, rest);
    assert((wire_bulk(bytes) + rest)[0] == 36u8);
    lemma_frame_span_dispatch(wire_bulk(bytes) + rest);
}

/// The length oracle is exact on the two null forms.
proof fn lemma_null_frame_span(rest: Seq<u8>)
    ensures
        frame_span(crate::encode::wire_null_array() + rest) == Ok::<nat, Flaw>(5nat),
        frame_span(crate::encode::wire_null_bulk_string() + rest) == Ok::<nat, Flaw>(5nat),
{
    lemma_null_forms_span_exact(rest);
    assert((crate::encode::wire_null_array() + rest)[0] == 42u8);
    assert((crate::encode::wire_null_bulk_string() + rest)[0] == 36u8);
    lemma_frame_span_dispatch(crate::encode::wire_null_array() + rest);
    lemma_frame_span_dispatch(crate::encode::wire_null_bulk_string() + rest);
}

/// The length oracle is exact on simple strings, simple errors and doubles.
proof fn lemma_text_leaf_span(frame: Frame, rest: Seq<u8>)
    requires
        canonical(frame),
        frame is SimpleString || frame is Error || frame is Double,
    ensures
        frame_span(wire(frame) + rest) == Ok::<nat, Flaw>(wire(frame).len()),
{
    match frame {
        Frame::SimpleString(text) => {
            lemma_text_frame_span(43u8, text, rest);
        },
        Frame::Error(text) => {
            lemma_text_frame_span(45u8, text, rest);
        },
        Frame::Double(text) => {
            lemma_text_frame_span(44u8, text, rest);
        },
        _ => {},
    }
}

/// The length oracle is exact on integers, booleans and the null.
proof fn lemma_small_leaf_span(frame: Frame, rest: Seq<u8>)
    requires
        frame is Integer || frame is Boolean || frame is Null,
    ensures
        frame_span(wire(frame) + rest) == Ok::<nat, Flaw>(wire(frame).len()),
{
    match frame {
        Frame::Integer(v) => {
            lemma_small_frame_span(v, true, rest);
        },
        Frame::Boolean(b) => {
            lemma_small_frame_span(0, b, rest);
        },
        Frame::Null => {
            lemma_small_frame_span(0, true, rest);
        },
        _ => {},
    }
}

/// The length oracle is exact on bulk strings and the two null forms.
proof fn lemma_bulk_leaf_span(frame: Frame, rest: Seq<u8>)
    requires
        wire(frame).len() <= usize::MAX,
        frame is BulkString || frame is NullArray || frame is NullBulkString,
    ensures
        frame_span(wire(frame) + rest) == Ok::<nat, Flaw>(wire(frame).len()),
{
    match frame {
        Frame::NullArray => {
            lemma_null_frame_span(rest);
        },
        Frame::NullBulkString => {
            lemma_null_frame_span(rest);
        },
        Frame::BulkString(bytes) => {
            lemma_bulk_frame_span(bytes, rest);
        },
        _ => {},
    }
}

/// The oracle is exact: on the encoding of a canonical frame, whatever follows
/// it, the oracle reports the length of the encoding.
pub proof fn lemma_span_exact(frame: Frame, rest: Seq<u8>)
    requires
        canonical(frame),
        wire(frame).len() <= usize::MAX,
    ensures
        frame_span(wire(frame) + rest) == Ok::<nat, Flaw>(wire(frame).len()),
    decreases frame, 0nat,
{
    match frame {
        Frame::Array(items) => {
            lemma_wire_items_split(items, 0);
            lemma_items_span_exact(items, 0, rest, wire_header(42u8, items.len()).len());
            lemma_array_span_exact(items, rest);
        },
        Frame::RespSet(items) => {
            lemma_wire_items_split(items, 0);
            lemma_items_span_exact(items, 0, rest, wire_header(126u8, items.len()).len());
            lemma_set_span_exact(items, rest);
        },
        Frame::RespMap(entries) => {
            lemma_wire_entries_split(entries, 0);
            lemma_pairs_span_exact(entries, 0, rest, wire_header(37u8, entries.len()).len());
            lemma_map_span_exact(entries, rest);
        },
        Frame::SimpleString(_) | Frame::Error(_) | Frame::Double(_) => {
            lemma_text_leaf_span(frame, rest);
        },
        Frame::Integer(_) | Frame::Boolean(_) | Frame::Null => {
            lemma_small_leaf_span(frame, rest);
        },
        _ => {
            lemma_bulk_leaf_span(frame, rest);
        },
    }
}

/// The marker byte of the type of a frame.
pub open spec fn marker_of(frame: Frame) -> u8 {
    match frame {
        Frame::SimpleString(_) => 43u8,
        Frame::Error(_) => 45u8,
        Frame::Integer(_) => 58u8,
        Frame::BulkString(_) => 36u8,
        Frame::NullBulkString => 36u8,
        Frame::Array(_) => 42u8,
        Frame::Null => 95u8,
        Frame::NullArray => 42u8,
        Frame::Boolean(_) => 35u8,
        Frame::Double(_) => 44u8,
        Frame::RespMap(_) => 37u8,
        Frame::RespSet(_) => 126u8,
    }
}

} // verus!
