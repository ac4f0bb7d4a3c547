//! Decoding what was encoded: the encoding of a canonical frame decodes to the
//! frame itself, and the decoder consumes exactly the encoding.

use crate::decimal::decimal_digits;
use crate::decimal::is_digit;
use crate::decimal::lemma_decimal_digits;
use crate::decimal::lemma_parse_signed_digits;
use crate::decode::lemma_pair_unfold;
use crate::decode::parse_array;
use crate::decode::parse_bool;
use crate::decode::parse_bulk_string;
use crate::decode::parse_double;
use crate::decode::parse_frame;
use crate::decode::parse_integer;
use crate::decode::parse_items;
use crate::decode::parse_map;
use crate::decode::parse_null;
use crate::decode::parse_null_array;
use crate::decode::parse_null_bulk_string;
use crate::decode::parse_pair;
use crate::decode::parse_pairs;
use crate::decode::parse_set;
use crate::decode::parse_simple_error;
use crate::decode::parse_simple_string;
use crate::decode::probe;
use crate::encode::crlf;
use crate::encode::wire;
use crate::encode::wire_bool;
use crate::encode::wire_bulk;
use crate::encode::wire_header;
use crate::encode::wire_integer;
use crate::encode::wire_line;
use crate::encode::wire_null;
use crate::encode::wire_null_array;
use crate::encode::wire_null_bulk_string;
use crate::error::Flaw;
use crate::frame::collect_entries;
use crate::frame::key_before;
use crate::frame::keys_ascending;
use crate::frame::position;
use crate::frame::Entries;
use crate::frame::Frame;
use crate::laws::canonical;
use crate::laws::lemma_bulk_span_exact;
use crate::laws::lemma_header;
use crate::laws::lemma_small_bodies;
use crate::laws::lemma_span_exact;
use crate::laws::lemma_wire_entries_split;
use crate::laws::lemma_wire_entries_tail_len;
use crate::laws::lemma_wire_items_split;
use crate::laws::lemma_wire_start;
use crate::laws::lemma_wire_tail_len;
use crate::laws::literal_text;
use crate::laws::plain_line;
use crate::laws::wire_entries_tail;
use crate::laws::wire_entry;
use crate::laws::wire_tail;
use crate::length::rest_at;
use crate::lines::lemma_line_end;
use crate::lines::lemma_marker_bytes;
use crate::text::body_text;
use vstd::prelude::*;
use vstd::utf8::encode_utf8;

verus! {

/// The bytes of the literal tokens.
pub proof fn lemma_literal_bytes()
    ensures
        encode_utf8("#t\r\n"@) == seq![35u8, 116u8, 13u8, 10u8],
        encode_utf8("#f\r\n"@) == seq![35u8, 102u8, 13u8, 10u8],
        encode_utf8("_\r\n"@) == seq![95u8, 13u8, 10u8],
        encode_utf8("*-1\r\n"@) == seq![42u8, 45u8, 49u8, 13u8, 10u8],
        encode_utf8("$-1\r\n"@) == seq![36u8, 45u8, 49u8, 13u8, 10u8],
{
    reveal_strlit("#t\r\n");
    reveal_strlit("#f\r\n");
    reveal_strlit("_\r\n");
    reveal_strlit("*-1\r\n");
    reveal_strlit("$-1\r\n");
    vstd::utf8::is_ascii_chars_encode_utf8("#t\r\n"@);
    vstd::utf8::is_ascii_chars_encode_utf8("#f\r\n"@);
    vstd::utf8::is_ascii_chars_encode_utf8("_\r\n"@);
    vstd::utf8::is_ascii_chars_encode_utf8("*-1\r\n"@);
    vstd::utf8::is_ascii_chars_encode_utf8("$-1\r\n"@);
    assert(encode_utf8("#t\r\n"@) =~= seq![35u8, 116u8, 13u8, 10u8]);
    assert(encode_utf8("#f\r\n"@) =~= seq![35u8, 102u8, 13u8, 10u8]);
    assert(encode_utf8("_\r\n"@) =~= seq![95u8, 13u8, 10u8]);
    assert(encode_utf8("*-1\r\n"@) =~= seq![42u8, 45u8, 49u8, 13u8, 10u8]);
    assert(encode_utf8("$-1\r\n"@) =~= seq![36u8, 45u8, 49u8, 13u8, 10u8]);
}

/// A literal token at the start of `s` is found.
pub proof fn lemma_probe_found(token: Seq<u8>, rest: Seq<u8>, expected: Seq<char>, name: Seq<char>)
    requires
        encode_utf8(expected) == token,
        token.len() >= 2,
    ensures
        probe(token + rest, expected, name) == Ok::<nat, Flaw>(token.len()),
{
    assert((token + rest).subrange(0, token.len() as int) =~= token);
}

/// Bytes that differ from a literal token in their second byte are certainly not
/// the token.
pub proof fn lemma_probe_differs(s: Seq<u8>, expected: Seq<char>, name: Seq<char>)
    requires
        s.len() >= 2,
        encode_utf8(expected).len() >= 2,
        s[1] != encode_utf8(expected)[1],
    ensures
        probe(s, expected, name) is Err,
        !(probe(s, expected, name) matches Err(Flaw::NotComplete)),
{
    let token = encode_utf8(expected);
    if token.is_prefix_of(s) {
        assert(s.subrange(0, token.len() as int)[1] == s[1]);
    }
    if s.is_prefix_of(token) {
        assert(token.subrange(0, s.len() as int)[1] == token[1]);
    }
}

/// A line of text decodes to the text.
pub proof fn lemma_text_line(prefix: Seq<char>, marker: u8, text: Seq<char>, rest: Seq<u8>)
    requires
        encode_utf8(prefix) == seq![marker],
        plain_line(text),
    ensures
        crate::scan::simple_frame_end(wire_line(marker, text) + rest, prefix) == Ok::<int, Flaw>(
            (encode_utf8(text).len() + 1) as int,
        ),
        (wire_line(marker, text) + rest).subrange(1, (encode_utf8(text).len() + 1) as int)
            == encode_utf8(text),
        body_text(encode_utf8(text)) == text,
        wire_line(marker, text).len() == encode_utf8(text).len() + 3,
{
    lemma_line_end(prefix, marker, encode_utf8(text), rest);
    vstd::utf8::encode_utf8_valid_utf8(text);
    vstd::utf8::encode_utf8_decode_utf8(text);
}

/// A simple string, a simple error and a double decode to themselves.
pub proof fn lemma_text_round_trip(text: Seq<char>, rest: Seq<u8>)
    requires
        plain_line(text),
    ensures
        parse_simple_string(wire_line(43u8, text) + rest) == Ok::<(Seq<char>, nat), Flaw>(
            (text, wire_line(43u8, text).len()),
        ),
        parse_simple_error(wire_line(45u8, text) + rest) == Ok::<(Seq<char>, nat), Flaw>(
            (text, wire_line(45u8, text).len()),
        ),
        literal_text(text) ==> parse_double(wire_line(44u8, text) + rest) == Ok::<
            (Seq<char>, nat),
            Flaw,
        >((text, wire_line(44u8, text).len())),
{
    lemma_marker_bytes();
    lemma_text_line("+"@, 43u8, text, rest);
    lemma_text_line("-"@, 45u8, text, rest);
    lemma_text_line(","@, 44u8, text, rest);
    reveal(literal_text);
}

/// An integer decodes to itself.
pub proof fn lemma_integer_round_trip(v: i64, rest: Seq<u8>)
    ensures
        parse_integer(wire_integer(v) + rest) == Ok::<(i64, nat), Flaw>(
            (v, wire_integer(v).len()),
        ),
{
    lemma_marker_bytes();
    let s = wire_integer(v) + rest;
    if v < 0 {
        let n = (-v) as nat;
        lemma_small_bodies(n);
        let body = seq![45u8] + decimal_digits(n);
        assert(s =~= seq![58u8] + body + crlf() + rest);
        lemma_line_end(":"@, 58u8, body, rest);
        lemma_parse_signed_digits(true, n, i64::MIN as int, i64::MAX as int);
    } else {
        let n = v as nat;
        lemma_small_bodies(n);
        let body = seq![43u8] + decimal_digits(n);
        assert(s =~= seq![58u8] + body + crlf() + rest);
        lemma_line_end(":"@, 58u8, body, rest);
        lemma_parse_signed_digits(false, n, i64::MIN as int, i64::MAX as int);
    }
}

/// A boolean decodes to itself.
pub proof fn lemma_bool_round_trip(b: bool, rest: Seq<u8>)
    ensures
        parse_bool(wire_bool(b) + rest) == Ok::<(bool, nat), Flaw>((b, 4nat)),
{
    lemma_literal_bytes();
    if b {
        lemma_probe_found(wire_bool(true), rest, "#t\r\n"@, "Bool"@);
    } else {
        lemma_probe_differs(wire_bool(false) + rest, "#t\r\n"@, "Bool"@);
        lemma_probe_found(wire_bool(false), rest, "#f\r\n"@, "Bool"@);
    }
}

/// The null, the null array and the null bulk string decode to themselves.
pub proof fn lemma_null_round_trip(rest: Seq<u8>)
    ensures
        parse_null(wire_null() + rest) == Ok::<((), nat), Flaw>(((), 3nat)),
        parse_null_array(wire_null_array() + rest) == Ok::<((), nat), Flaw>(((), 5nat)),
        parse_null_bulk_string(wire_null_bulk_string() + rest) == Ok::<((), nat), Flaw>(
            ((), 5nat),
        ),
{
    lemma_literal_bytes();
    lemma_probe_found(wire_null(), rest, "_\r\n"@, "Null"@);
    lemma_probe_found(wire_null_array(), rest, "*-1\r\n"@, "RespNullArray"@);
    lemma_probe_found(wire_null_bulk_string(), rest, "$-1\r\n"@, "RespNullBulkString"@);
}

/// A bulk string decodes to itself, and is not taken for the null bulk string.
pub proof fn lemma_bulk_round_trip(bytes: Seq<u8>, rest: Seq<u8>)
    requires
        wire_bulk(bytes).len() <= usize::MAX,
    ensures
        parse_bulk_string(wire_bulk(bytes) + rest) == Ok::<(Seq<u8>, nat), Flaw>(
            (bytes, wire_bulk(bytes).len()),
        ),
        parse_null_bulk_string(wire_bulk(bytes) + rest) is Err,
        !(parse_null_bulk_string(wire_bulk(bytes) + rest) matches Err(Flaw::NotComplete)),
{
    let s = wire_bulk(bytes) + rest;
    let d = decimal_digits(bytes.len());
    lemma_bulk_span_exact(bytes, rest);
    lemma_decimal_digits(bytes.len());
    lemma_literal_bytes();
    assert(s[1] == d[0]);
    assert(is_digit(d[0]));
    lemma_probe_differs(s, "$-1\r\n"@, "RespNullBulkString"@);
    assert(s.subrange((d.len() + 3) as int, (d.len() + 3 + bytes.len()) as int) =~= bytes);
}

/// A frame follows from what the bytes are as a value of the type that their
/// leading byte names.
pub proof fn lemma_dispatch_simple_string(s: Seq<u8>, text: Seq<char>, n: nat)
    requires
        s.len() > 0,
        s[0] == 43u8,
        parse_simple_string(s) == Ok::<(Seq<char>, nat), Flaw>((text, n)),
    ensures
        parse_frame(s) == Ok::<(Frame, nat), Flaw>((Frame::SimpleString(text), n)),
{
    reveal(parse_frame);
}

/// A frame follows from what the bytes are as a value of the type that their
/// leading byte names.
pub proof fn lemma_dispatch_simple_error(s: Seq<u8>, text: Seq<char>, n: nat)
    requires
        s.len() > 0,
        s[0] == 45u8,
        parse_simple_error(s) == Ok::<(Seq<char>, nat), Flaw>((text, n)),
    ensures
        parse_frame(s) == Ok::<(Frame, nat), Flaw>((Frame::Error(text), n)),
{
    reveal(parse_frame);
}

/// A frame follows from what the bytes are as a value of the type that their
/// leading byte names.
pub proof fn lemma_dispatch_double(s: Seq<u8>, text: Seq<char>, n: nat)
    requires
        s.len() > 0,
        s[0] == 44u8,
        parse_double(s) == Ok::<(Seq<char>, nat), Flaw>((text, n)),
    ensures
        parse_frame(s) == Ok::<(Frame, nat), Flaw>((Frame::Double(text), n)),
{
    reveal(parse_frame);
}

/// A frame follows from what the bytes are as a value of the type that their
/// leading byte names.
pub proof fn lemma_dispatch_integer(s: Seq<u8>, v: i64, n: nat)
    requires
        s.len() > 0,
        s[0] == 58u8,
        parse_integer(s) == Ok::<(i64, nat), Flaw>((v, n)),
    ensures
        parse_frame(s) == Ok::<(Frame, nat), Flaw>((Frame::Integer(v), n)),
{
    reveal(parse_frame);
}

/// A frame follows from what the bytes are as a value of the type that their
/// leading byte names.
pub proof fn lemma_dispatch_bool(s: Seq<u8>, b: bool, n: nat)
    requires
        s.len() > 0,
        s[0] == 35u8,
        parse_bool(s) == Ok::<(bool, nat), Flaw>((b, n)),
    ensures
        parse_frame(s) == Ok::<(Frame, nat), Flaw>((Frame::Boolean(b), n)),
{
    reveal(parse_frame);
}

/// A frame follows from what the bytes are as a value of the type that their
/// leading byte names.
pub proof fn lemma_dispatch_null(s: Seq<u8>, unit: (), n: nat)
    requires
        s.len() > 0,
        s[0] == 95u8,
        parse_null(s) == Ok::<((), nat), Flaw>((unit, n)),
    ensures
        parse_frame(s) == Ok::<(Frame, nat), Flaw>((Frame::Null, n)),
{
    reveal(parse_frame);
}

/// A frame follows from what the bytes are as a value of the type that their
/// leading byte names.
pub proof fn lemma_dispatch_null_bulk_string(s: Seq<u8>, unit: (), n: nat)
    requires
        s.len() > 0,
        s[0] == 36u8,
        parse_null_bulk_string(s) == Ok::<((), nat), Flaw>((unit, n)),
    ensures
        parse_frame(s) == Ok::<(Frame, nat), Flaw>((Frame::NullBulkString, n)),
{
    reveal(parse_frame);
}

/// A frame follows from what the bytes are as a value of the type that their
/// leading byte names.
pub proof fn lemma_dispatch_null_array(s: Seq<u8>, unit: (), n: nat)
    requires
        s.len() > 0,
        s[0] == 42u8,
        parse_null_array(s) == Ok::<((), nat), Flaw>((unit, n)),
    ensures
        parse_frame(s) == Ok::<(Frame, nat), Flaw>((Frame::NullArray, n)),
{
    reveal(parse_frame);
}

/// A frame follows from what the bytes are as a value of the type that their
/// leading byte names.
pub proof fn lemma_dispatch_bulk_string(s: Seq<u8>, bytes: Seq<u8>, n: nat)
    requires
        s.len() > 0,
        s[0] == 36u8,
        parse_null_bulk_string(s) is Err,
        !(parse_null_bulk_string(s) matches Err(Flaw::NotComplete)),
        parse_bulk_string(s) == Ok::<(Seq<u8>, nat), Flaw>((bytes, n)),
    ensures
        parse_frame(s) == Ok::<(Frame, nat), Flaw>((Frame::BulkString(bytes), n)),
{
    reveal(parse_frame);
}

/// A frame follows from what the bytes are as a value of the type that their
/// leading byte names.
pub proof fn lemma_dispatch_array(s: Seq<u8>, items: Seq<Frame>, n: nat)
    requires
        s.len() > 0,
        s[0] == 42u8,
        parse_null_array(s) is Err,
        !(parse_null_array(s) matches Err(Flaw::NotComplete)),
        parse_array(s) == Ok::<(Seq<Frame>, nat), Flaw>((items, n)),
    ensures
        parse_frame(s) == Ok::<(Frame, nat), Flaw>((Frame::Array(items), n)),
{
    reveal(parse_frame);
}

/// A frame follows from what the bytes are as a value of the type that their
/// leading byte names.
pub proof fn lemma_dispatch_set(s: Seq<u8>, items: Seq<Frame>, n: nat)
    requires
        s.len() > 0,
        s[0] == 126u8,
        parse_set(s) == Ok::<(Seq<Frame>, nat), Flaw>((items, n)),
    ensures
        parse_frame(s) == Ok::<(Frame, nat), Flaw>((Frame::RespSet(items), n)),
{
    reveal(parse_frame);
}

/// A frame follows from what the bytes are as a value of the type that their
/// leading byte names.
pub proof fn lemma_dispatch_map(s: Seq<u8>, entries: Entries, n: nat)
    requires
        s.len() > 0,
        s[0] == 37u8,
        parse_map(s) == Ok::<(Entries, nat), Flaw>((entries, n)),
    ensures
        parse_frame(s) == Ok::<(Frame, nat), Flaw>((Frame::RespMap(entries), n)),
{
    reveal(parse_frame);
}

/// The items of a container are its first item and then the others.
pub proof fn lemma_items_unfold(t: Seq<u8>, count: nat)
    ensures
        count == 0 ==> parse_items(t, count) == Ok::<(Seq<Frame>, nat), Flaw>(
            (Seq::<Frame>::empty(), 0nat),
        ),
        count > 0 ==> parse_items(t, count) == match parse_frame(t) {
            Err(flaw) => Err::<(Seq<Frame>, nat), Flaw>(flaw),
            Ok((first, n)) => match parse_items(rest_at(t, n as int), (count - 1) as nat) {
                Err(flaw) => Err::<(Seq<Frame>, nat), Flaw>(flaw),
                Ok((others, m)) => Ok::<(Seq<Frame>, nat), Flaw>((seq![first] + others, n + m)),
            },
        },
{
    reveal(parse_frame);
}

/// The pairs of a map are its first pair and then the others.
pub proof fn lemma_pairs_unfold(t: Seq<u8>, count: nat)
    ensures
        count == 0 ==> parse_pairs(t, count) == Ok::<(Entries, nat), Flaw>(
            (Seq::<(Seq<char>, Frame)>::empty(), 0nat),
        ),
        count > 0 ==> parse_pairs(t, count) == match parse_pair(t) {
            Err(flaw) => Err::<(Entries, nat), Flaw>(flaw),
            Ok((first, n)) => match parse_pairs(rest_at(t, n as int), (count - 1) as nat) {
                Err(flaw) => Err::<(Entries, nat), Flaw>(flaw),
                Ok((others, m)) => Ok::<(Entries, nat), Flaw>((seq![first] + others, n + m)),
            },
        },
{
    reveal(parse_frame);
}

/// Items are composed of the first item and the others.
pub proof fn lemma_items_compose(
    t: Seq<u8>,
    count: nat,
    first: Frame,
    n: nat,
    others: Seq<Frame>,
    m: nat,
)
    requires
        count > 0,
        parse_frame(t) == Ok::<(Frame, nat), Flaw>((first, n)),
        parse_items(rest_at(t, n as int), (count - 1) as nat) == Ok::<(Seq<Frame>, nat), Flaw>(
            (others, m),
        ),
    ensures
        parse_items(t, count) == Ok::<(Seq<Frame>, nat), Flaw>((seq![first] + others, n + m)),
{
    lemma_items_unfold(t, count);
}

/// Pairs are composed of the first pair and the others.
pub proof fn lemma_pairs_compose(
    t: Seq<u8>,
    count: nat,
    first: (Seq<char>, Frame),
    n: nat,
    others: Entries,
    m: nat,
)
    requires
        count > 0,
        parse_pair(t) == Ok::<((Seq<char>, Frame), nat), Flaw>((first, n)),
        parse_pairs(rest_at(t, n as int), (count - 1) as nat) == Ok::<(Entries, nat), Flaw>(
            (others, m),
        ),
    ensures
        parse_pairs(t, count) == Ok::<(Entries, nat), Flaw>((seq![first] + others, n + m)),
{
    lemma_pairs_unfold(t, count);
}

/// A container is its header, a span that lies within the bytes, and its items.
pub proof fn lemma_containers_unfold(s: Seq<u8>)
    ensures
        parse_array(s) == match crate::scan::length_header(s, "*"@) {
            Err(flaw) => Err::<(Seq<Frame>, nat), Flaw>(flaw),
            Ok((end, count)) => match crate::length::array_span(s) {
                Err(flaw) => Err::<(Seq<Frame>, nat), Flaw>(flaw),
                Ok(total) => if s.len() < total {
                    Err::<(Seq<Frame>, nat), Flaw>(Flaw::NotComplete)
                } else {
                    match parse_items(rest_at(s, end + 2), count as nat) {
                        Err(flaw) => Err::<(Seq<Frame>, nat), Flaw>(flaw),
                        Ok((items, n)) => Ok::<(Seq<Frame>, nat), Flaw>(
                            (items, (end + 2 + n) as nat),
                        ),
                    }
                },
            },
        },
        parse_set(s) == match crate::scan::length_header(s, "~"@) {
            Err(flaw) => Err::<(Seq<Frame>, nat), Flaw>(flaw),
            Ok((end, count)) => match crate::length::set_span(s) {
                Err(flaw) => Err::<(Seq<Frame>, nat), Flaw>(flaw),
                Ok(total) => if s.len() < total {
                    Err::<(Seq<Frame>, nat), Flaw>(Flaw::NotComplete)
                } else {
                    match parse_items(rest_at(s, end + 2), count as nat) {
                        Err(flaw) => Err::<(Seq<Frame>, nat), Flaw>(flaw),
                        Ok((items, n)) => Ok::<(Seq<Frame>, nat), Flaw>(
                            (items, (end + 2 + n) as nat),
                        ),
                    }
                },
            },
        },
        parse_map(s) == match crate::scan::length_header(s, "%"@) {
            Err(flaw) => Err::<(Entries, nat), Flaw>(flaw),
            Ok((end, count)) => match crate::length::map_span(s) {
                Err(flaw) => Err::<(Entries, nat), Flaw>(flaw),
                Ok(total) => if s.len() < total {
                    Err::<(Entries, nat), Flaw>(Flaw::NotComplete)
                } else {
                    match parse_pairs(rest_at(s, end + 2), count as nat) {
                        Err(flaw) => Err::<(Entries, nat), Flaw>(flaw),
                        Ok((pairs, n)) => Ok::<(Entries, nat), Flaw>(
                            (collect_entries(pairs), (end + 2 + n) as nat),
                        ),
                    }
                },
            },
        },
{
    reveal(parse_frame);
}

/// Where all keys from `i` on stand before `key`, its position is at the end.
pub proof fn lemma_position_end(m: Entries, key: Seq<char>, i: int)
    requires
        0 <= i <= m.len(),
        forall|j: int| i <= j < m.len() ==> key_before(#[trigger] m[j].0, key),
    ensures
        position(m, key, i) == m.len(),
    decreases m.len() - i,
{
    if i < m.len() {
        lemma_position_end(m, key, i + 1);
    }
}

/// Entries in ascending order of their keys, put into a map one after the other,
/// give the same entries.
pub proof fn lemma_collect_sorted(entries: Entries)
    requires
        keys_ascending(entries),
    ensures
        collect_entries(entries) == entries,
    decreases entries.len(),
{
    if entries.len() == 0 {
        assert(entries =~= Seq::<(Seq<char>, Frame)>::empty());
    } else {
        let front = entries.drop_last();
        let last = entries.last();
        assert forall|i: int, j: int| 0 <= i < j < front.len() implies key_before(
            #[trigger] front[i].0,
            #[trigger] front[j].0,
        ) by {
            assert(front[i] == entries[i] && front[j] == entries[j]);
        }
        lemma_collect_sorted(front);
        assert forall|j: int| 0 <= j < front.len() implies key_before(
            #[trigger] front[j].0,
            last.0,
        ) by {
            assert(front[j] == entries[j]);
            assert(last == entries[entries.len() - 1]);
        }
        lemma_position_end(front, last.0, 0);
        assert(front.insert(front.len() as int, last) =~= entries);
    }
}

/// The rest of the items of a container decode to themselves.
pub proof fn lemma_items_round_trip(items: Seq<Frame>, from: int, rest: Seq<u8>)
    requires
        0 <= from <= items.len(),
        forall|i: int| 0 <= i < items.len() ==> canonical(#[trigger] items[i]),
        wire_tail(items, from).len() <= usize::MAX,
    ensures
        parse_items(wire_tail(items, from) + rest, (items.len() - from) as nat) == Ok::<
            (Seq<Frame>, nat),
            Flaw,
        >((items.skip(from), wire_tail(items, from).len())),
    decreases items, items.len() - from,
{
    let t = wire_tail(items, from) + rest;
    if from < items.len() {
        let first = wire(items[from]);
        let after = wire_tail(items, from + 1) + rest;
        assert(t == first + after) by {
            assert(t =~= first + after);
        }
        lemma_round_trip(items[from], after);
        assert(rest_at(t, first.len() as int) == after) by {
            assert(rest_at(first + after, first.len() as int) =~= after);
        }
        lemma_items_round_trip(items, from + 1, rest);
        lemma_items_compose(
            t,
            (items.len() - from) as nat,
            items[from],
            first.len(),
            items.skip(from + 1),
            wire_tail(items, from + 1).len(),
        );
        assert(seq![items[from]] + items.skip(from + 1) == items.skip(from)) by {
            assert(seq![items[from]] + items.skip(from + 1) =~= items.skip(from));
        }
    } else {
        lemma_items_unfold(t, 0);
        assert(items.skip(from) =~= Seq::<Frame>::empty());
    }
}

/// One entry of a map decodes to itself, if its frame does.
pub proof fn lemma_pair_round_trip(key: Seq<char>, value: Frame, after: Seq<u8>)
    requires
        plain_line(key),
        parse_frame(wire(value) + after) == Ok::<(Frame, nat), Flaw>((value, wire(value).len())),
    ensures
        parse_pair(wire_entry((key, value)) + after) == Ok::<((Seq<char>, Frame), nat), Flaw>(
            ((key, value), wire_entry((key, value)).len()),
        ),
{
    let line = wire_line(43u8, key);
    let t = wire_entry((key, value)) + after;
    assert(t =~= line + (wire(value) + after));
    lemma_pair_unfold(t);
    lemma_text_round_trip(key, wire(value) + after);
    assert(rest_at(t, line.len() as int) =~= wire(value) + after);
}

/// The rest of the entries of a map decode to themselves, in their order.
pub proof fn lemma_pairs_round_trip(entries: Entries, from: int, rest: Seq<u8>)
    requires
        0 <= from <= entries.len(),
        forall|i: int|
            0 <= i < entries.len() ==> plain_line((#[trigger] entries[i]).0) && canonical(
                entries[i].1,
            ),
        wire_entries_tail(entries, from).len() <= usize::MAX,
    ensures
        parse_pairs(wire_entries_tail(entries, from) + rest, (entries.len() - from) as nat)
            == Ok::<(Entries, nat), Flaw>(
            (entries.skip(from), wire_entries_tail(entries, from).len()),
        ),
    decreases entries, entries.len() - from,
{
    let t = wire_entries_tail(entries, from) + rest;
    if from < entries.len() {
        let entry = entries[from];
        let first = wire_entry(entry);
        let after = wire_entries_tail(entries, from + 1) + rest;
        assert(t == first + after) by {
            assert(t =~= first + after);
        }
        assert(parse_pair(t) == Ok::<((Seq<char>, Frame), nat), Flaw>((entry, first.len()))) by {
            assert(plain_line(entry.0) && canonical(entry.1));
            lemma_round_trip(entry.1, after);
            lemma_pair_round_trip(entry.0, entry.1, after);
        }
        assert(rest_at(t, first.len() as int) == after) by {
            assert(rest_at(first + after, first.len() as int) =~= after);
        }
        lemma_pairs_round_trip(entries, from + 1, rest);
        lemma_pairs_compose(
            t,
            (entries.len() - from) as nat,
            entry,
            first.len(),
            entries.skip(from + 1),
            wire_entries_tail(entries, from + 1).len(),
        );
        assert(seq![entry] + entries.skip(from + 1) == entries.skip(from)) by {
            assert(seq![entry] + entries.skip(from + 1) =~= entries.skip(from));
        }
    } else {
        lemma_pairs_unfold(t, 0);
        assert(entries.skip(from) =~= Seq::<(Seq<char>, Frame)>::empty());
    }
}

/// The header of a container, and that it is not taken for a null form.
proof fn lemma_container_start(prefix: Seq<char>, marker: u8, count: nat, tail: Seq<u8>)
    requires
        encode_utf8(prefix) == seq![marker],
        count <= usize::MAX,
    ensures
        crate::scan::length_header(wire_header(marker, count) + tail, prefix) == Ok::<
            (int, int),
            Flaw,
        >(((decimal_digits(count).len() + 1) as int, count as int)),
        rest_at(wire_header(marker, count) + tail, (decimal_digits(count).len() + 3) as int)
            == tail,
        wire_header(marker, count).len() == decimal_digits(count).len() + 3,
        (wire_header(marker, count) + tail)[0] == marker,
        is_digit((wire_header(marker, count) + tail)[1]),
{
    lemma_header(prefix, marker, count, tail);
    lemma_decimal_digits(count);
    let d = decimal_digits(count);
    assert((wire_header(marker, count) + tail)[1] == d[0]);
    assert(is_digit(d[0]));
    assert(rest_at(wire_header(marker, count) + tail, (d.len() + 3) as int) =~= tail);
}

/// An array decodes to itself, if its items do.
proof fn lemma_array_round_trip(items: Seq<Frame>, rest: Seq<u8>)
    requires
        wire(Frame::Array(items)).len() <= usize::MAX,
        crate::length::frame_span(wire(Frame::Array(items)) + rest) == Ok::<nat, Flaw>(
            wire(Frame::Array(items)).len(),
        ),
        parse_items(wire_tail(items, 0) + rest, items.len()) == Ok::<(Seq<Frame>, nat), Flaw>(
            (items, wire_tail(items, 0).len()),
        ),
    ensures
        parse_frame(wire(Frame::Array(items)) + rest) == Ok::<(Frame, nat), Flaw>(
            (Frame::Array(items), wire(Frame::Array(items)).len()),
        ),
{
    lemma_marker_bytes();
    lemma_literal_bytes();
    let s = wire(Frame::Array(items)) + rest;
    let tail = wire_tail(items, 0) + rest;
    lemma_wire_items_split(items, 0);
    lemma_wire_tail_len(items, 0);
    assert(s =~= wire_header(42u8, items.len()) + tail);
    lemma_container_start("*"@, 42u8, items.len(), tail);
    lemma_probe_differs(s, "*-1\r\n"@, "RespNullArray"@);
    lemma_containers_unfold(s);
    crate::length::lemma_frame_span_dispatch(s);
    lemma_dispatch_array(s, items, wire(Frame::Array(items)).len());
}

/// A set decodes to itself, if its items do.
proof fn lemma_set_round_trip(items: Seq<Frame>, rest: Seq<u8>)
    requires
        wire(Frame::RespSet(items)).len() <= usize::MAX,
        crate::length::frame_span(wire(Frame::RespSet(items)) + rest) == Ok::<nat, Flaw>(
            wire(Frame::RespSet(items)).len(),
        ),
        parse_items(wire_tail(items, 0) + rest, items.len()) == Ok::<(Seq<Frame>, nat), Flaw>(
            (items, wire_tail(items, 0).len()),
        ),
    ensures
        parse_frame(wire(Frame::RespSet(items)) + rest) == Ok::<(Frame, nat), Flaw>(
            (Frame::RespSet(items), wire(Frame::RespSet(items)).len()),
        ),
{
    lemma_marker_bytes();
    let s = wire(Frame::RespSet(items)) + rest;
    let tail = wire_tail(items, 0) + rest;
    lemma_wire_items_split(items, 0);
    lemma_wire_tail_len(items, 0);
    assert(s =~= wire_header(126u8, items.len()) + tail);
    lemma_container_start("~"@, 126u8, items.len(), tail);
    lemma_containers_unfold(s);
    crate::length::lemma_frame_span_dispatch(s);
    lemma_dispatch_set(s, items, wire(Frame::RespSet(items)).len());
}

/// A map decodes to itself, if its entries do and stand in ascending order.
proof fn lemma_map_round_trip(entries: Entries, rest: Seq<u8>)
    requires
        keys_ascending(entries),
        wire(Frame::RespMap(entries)).len() <= usize::MAX,
        crate::length::frame_span(wire(Frame::RespMap(entries)) + rest) == Ok::<nat, Flaw>(
            wire(Frame::RespMap(entries)).len(),
        ),
        parse_pairs(wire_entries_tail(entries, 0) + rest, entries.len()) == Ok::<
            (Entries, nat),
            Flaw,
        >((entries, wire_entries_tail(entries, 0).len())),
    ensures
        parse_frame(wire(Frame::RespMap(entries)) + rest) == Ok::<(Frame, nat), Flaw>(
            (Frame::RespMap(entries), wire(Frame::RespMap(entries)).len()),
        ),
{
    lemma_marker_bytes();
    let s = wire(Frame::RespMap(entries)) + rest;
    let tail = wire_entries_tail(entries, 0) + rest;
    lemma_wire_entries_split(entries, 0);
    lemma_wire_entries_tail_len(entries, 0);
    assert(s =~= wire_header(37u8, entries.len()) + tail);
    lemma_container_start("%"@, 37u8, entries.len(), tail);
    lemma_collect_sorted(entries);
    lemma_containers_unfold(s);
    crate::length::lemma_frame_span_dispatch(s);
    lemma_dispatch_map(s, entries, wire(Frame::RespMap(entries)).len());
}

/// Simple strings, simple errors and doubles decode to themselves.
proof fn lemma_text_leaf_round_trip(frame: Frame, rest: Seq<u8>)
    requires
        canonical(frame),
        frame is SimpleString || frame is Error || frame is Double,
    ensures
        parse_frame(wire(frame) + rest) == Ok::<(Frame, nat), Flaw>((frame, wire(frame).len())),
{
    lemma_wire_start(frame);
    assert((wire(frame) + rest)[0] == wire(frame)[0]);
    let s = wire(frame) + rest;
    match frame {
        Frame::SimpleString(text) => {
            lemma_text_round_trip(text, rest);
            lemma_dispatch_simple_string(s, text, wire(frame).len());
        },
        Frame::Error(text) => {
            lemma_text_round_trip(text, rest);
            lemma_dispatch_simple_error(s, text, wire(frame).len());
        },
        Frame::Double(text) => {
            lemma_text_round_trip(text, rest);
            lemma_dispatch_double(s, text, wire(frame).len());
        },
        _ => {},
    }
}

/// Integers, booleans and the null decode to themselves.
proof fn lemma_small_leaf_round_trip(frame: Frame, rest: Seq<u8>)
    requires
        frame is Integer || frame is Boolean || frame is Null,
    ensures
        parse_frame(wire(frame) + rest) == Ok::<(Frame, nat), Flaw>((frame, wire(frame).len())),
{
    lemma_wire_start(frame);
    assert((wire(frame) + rest)[0] == wire(frame)[0]);
    let s = wire(frame) + rest;
    match frame {
        Frame::Integer(v) => {
            lemma_integer_round_trip(v, rest);
            lemma_dispatch_integer(s, v, wire(frame).len());
        },
        Frame::Boolean(b) => {
            lemma_bool_round_trip(b, rest);
            lemma_dispatch_bool(s, b, 4);
        },
        Frame::Null => {
            lemma_null_round_trip(rest);
            lemma_dispatch_null(s, (), 3);
        },
        _ => {},
    }
}

/// Bulk strings and the two null forms decode to themselves.
proof fn lemma_bulk_leaf_round_trip(frame: Frame, rest: Seq<u8>)
    requires
        wire(frame).len() <= usize::MAX,
        frame is BulkString || frame is NullArray || frame is NullBulkString,
    ensures
        parse_frame(wire(frame) + rest) == Ok::<(Frame, nat), Flaw>((frame, wire(frame).len())),
{
    lemma_wire_start(frame);
    assert((wire(frame) + rest)[0] == wire(frame)[0]);
    let s = wire(frame) + rest;
    match frame {
        Frame::BulkString(bytes) => {
            lemma_bulk_round_trip(bytes, rest);
            lemma_dispatch_bulk_string(s, bytes, wire(frame).len());
        },
        Frame::NullArray => {
            lemma_null_round_trip(rest);
            lemma_dispatch_null_array(s, (), 5);
        },
        Frame::NullBulkString => {
            lemma_null_round_trip(rest);
            lemma_dispatch_null_bulk_string(s, (), 5);
        },
        _ => {},
    }
}

/// Decoding undoes encoding: the encoding of a canonical frame, whatever follows
/// it, decodes to the frame itself, and the decoder consumes exactly the encoding.
pub proof fn lemma_round_trip(frame: Frame, rest: Seq<u8>)
    requires
        canonical(frame),
        wire(frame).len() <= usize::MAX,
    ensures
        parse_frame(wire(frame) + rest) == Ok::<(Frame, nat), Flaw>((frame, wire(frame).len())),
    decreases frame, 0nat,
{
    match frame {
        Frame::Array(items) => {
            lemma_wire_items_split(items, 0);
            lemma_span_exact(frame, rest);
            lemma_items_round_trip(items, 0, rest);
            assert(items.skip(0) =~= items);
            lemma_array_round_trip(items, rest);
        },
        Frame::RespSet(items) => {
            lemma_wire_items_split(items, 0);
            lemma_span_exact(frame, rest);
            lemma_items_round_trip(items, 0, rest);
            assert(items.skip(0) =~= items);
            lemma_set_round_trip(items, rest);
        },
        Frame::RespMap(entries) => {
            lemma_wire_entries_split(entries, 0);
            lemma_span_exact(frame, rest);
            lemma_pairs_round_trip(entries, 0, rest);
            assert(entries.skip(0) =~= entries);
            lemma_map_round_trip(entries, rest);
        },
        Frame::SimpleString(_) | Frame::Error(_) | Frame::Double(_) => {
            lemma_text_leaf_round_trip(frame, rest);
        },
        Frame::Integer(_) | Frame::Boolean(_) | Frame::Null => {
            lemma_small_leaf_round_trip(frame, rest);
        },
        _ => {
            lemma_bulk_leaf_round_trip(frame, rest);
        },
    }
}

/// Decoding undoes encoding on a whole buffer: the encoding of a canonical frame,
/// with nothing after it, decodes to the frame and is consumed to its end.
pub proof fn lemma_round_trip_whole(frame: Frame)
    requires
        canonical(frame),
        wire(frame).len() <= usize::MAX,
    ensures
        parse_frame(wire(frame)) == Ok::<(Frame, nat), Flaw>((frame, wire(frame).len())),
        crate::length::frame_span(wire(frame)) == Ok::<nat, Flaw>(wire(frame).len()),
{
    lemma_round_trip(frame, Seq::empty());
    lemma_span_exact(frame, Seq::empty());
    assert(wire(frame) + Seq::<u8>::empty() =~= wire(frame));
}

} // verus!
