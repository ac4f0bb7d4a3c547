//! Facts about lines on the wire: where the terminator of a well-formed header or
//! scalar body is found, and that a proper beginning of one has none.

use crate::encode::crlf;
use crate::error::Flaw;
use crate::scan::crlf_at;
use crate::scan::nth_crlf;
use crate::scan::simple_frame_end;
use vstd::prelude::*;
use vstd::utf8::encode_utf8;

verus! {

/// No terminator starts anywhere in `body`.
pub open spec fn no_crlf(body: Seq<u8>) -> bool {
    forall|i: int| !crlf_at(body, i)
}

/// A terminator with none before it, from `from` on, is the first one.
pub proof fn lemma_first_crlf_at(s: Seq<u8>, from: int, i: int)
    requires
        0 <= from <= i,
        crlf_at(s, i),
        forall|j: int| from <= j < i ==> !crlf_at(s, j),
    ensures
        nth_crlf(s, from, 1) == Some(i),
    decreases i - from,
{
    if from < i {
        lemma_first_crlf_at(s, from + 1, i);
    }
}

/// Where no terminator starts from `from` on, none is found.
pub proof fn lemma_no_crlf_found(s: Seq<u8>, from: int)
    requires
        0 <= from,
        forall|j: int| from <= j ==> !crlf_at(s, j),
    ensures
        nth_crlf(s, from, 1) is None,
    decreases s.len() - from,
{
    if from + 1 < s.len() {
        lemma_no_crlf_found(s, from + 1);
    }
}

/// The bytes of the one-character texts that mark the types.
pub proof fn lemma_marker_bytes()
    ensures
        encode_utf8("+"@) == seq![43u8],
        encode_utf8("-"@) == seq![45u8],
        encode_utf8(":"@) == seq![58u8],
        encode_utf8("$"@) == seq![36u8],
        encode_utf8("*"@) == seq![42u8],
        encode_utf8("_"@) == seq![95u8],
        encode_utf8("#"@) == seq![35u8],
        encode_utf8(","@) == seq![44u8],
        encode_utf8("%"@) == seq![37u8],
        encode_utf8("~"@) == seq![126u8],
{
    reveal_strlit("+");
    reveal_strlit("-");
    reveal_strlit(":");
    reveal_strlit("$");
    reveal_strlit("*");
    reveal_strlit("_");
    reveal_strlit("#");
    reveal_strlit(",");
    reveal_strlit("%");
    reveal_strlit("~");
    lemma_one_ascii("+"@);
    lemma_one_ascii("-"@);
    lemma_one_ascii(":"@);
    lemma_one_ascii("$"@);
    lemma_one_ascii("*"@);
    lemma_one_ascii("_"@);
    lemma_one_ascii("#"@);
    lemma_one_ascii(","@);
    lemma_one_ascii("%"@);
    lemma_one_ascii("~"@);
}

/// A text of one ASCII character is one byte.
proof fn lemma_one_ascii(text: Seq<char>)
    requires
        text.len() == 1,
        '\0' <= text[0] <= '\u{7f}',
    ensures
        encode_utf8(text) == seq![text[0] as u8],
{
    vstd::utf8::is_ascii_chars_encode_utf8(text);
    assert(encode_utf8(text) =~= seq![text[0] as u8]);
}

/// In a marker, a body without a terminator, a terminator and anything after it,
/// the terminator found is the one after the body.
pub proof fn lemma_line_end(prefix: Seq<char>, marker: u8, body: Seq<u8>, rest: Seq<u8>)
    requires
        encode_utf8(prefix) == seq![marker],
        no_crlf(body),
    ensures
        simple_frame_end(seq![marker] + body + crlf() + rest, prefix) == Ok::<int, Flaw>(
            (body.len() + 1) as int,
        ),
        (seq![marker] + body + crlf() + rest).subrange(1, (body.len() + 1) as int) == body,
{
    let s = seq![marker] + body + crlf() + rest;
    let end: int = (body.len() + 1) as int;
    assert(seq![marker].is_prefix_of(s)) by {
        assert(s.subrange(0, 1) =~= seq![marker]);
    }
    assert(crlf_at(s, end));
    assert forall|j: int| 1 <= j < end implies !crlf_at(s, j) by {
        if crlf_at(s, j) {
            if j + 1 < end {
                assert(body[j - 1] == s[j] && body[j] == s[j + 1]);
                assert(crlf_at(body, j - 1));
            } else {
                assert(s[j + 1] == 13u8);
            }
        }
    }
    lemma_first_crlf_at(s, 1, end);
    assert(s.subrange(1, end) =~= body);
}

/// A proper beginning of a marker, a body without a terminator and a terminator
/// holds no whole line.
pub proof fn lemma_line_cut(prefix: Seq<char>, marker: u8, body: Seq<u8>, k: int)
    requires
        encode_utf8(prefix) == seq![marker],
        no_crlf(body),
        0 <= k < body.len() + 3,
    ensures
        simple_frame_end((seq![marker] + body + crlf()).take(k), prefix) == Err::<int, Flaw>(
            Flaw::NotComplete,
        ),
{
    let s = seq![marker] + body + crlf();
    let p = s.take(k);
    if k >= 3 {
        assert(seq![marker].is_prefix_of(p)) by {
            assert(p.subrange(0, 1) =~= seq![marker]);
        }
        assert forall|j: int| 1 <= j implies !crlf_at(p, j) by {
            if crlf_at(p, j) {
                assert(p[j] == s[j] && p[j + 1] == s[j + 1]);
                if j + 1 < 1 + body.len() {
                    assert(body[j - 1] == s[j] && body[j] == s[j + 1]);
                    assert(crlf_at(body, j - 1));
                } else {
                    assert(s[j + 1] == 13u8);
                }
            }
        }
        lemma_no_crlf_found(p, 1);
    }
}

} // verus!
