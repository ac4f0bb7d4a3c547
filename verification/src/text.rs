//! Text made from raw bytes: the lossy reading of a body as UTF-8, and the two
//! renderings of offending bytes that the diagnostics carry.

use bytes::BytesMut;
use vstd::prelude::*;
use vstd::utf8::decode_utf8;
use vstd::utf8::valid_utf8;

verus! {

/// The text that `String::from_utf8_lossy` reads from `bytes`.
pub uninterp spec fn lossy_text(bytes: Seq<u8>) -> Seq<char>;

/// The text of a body: what the bytes encode where they are valid UTF-8, and the
/// lossy reading otherwise.
pub open spec fn body_text(bytes: Seq<u8>) -> Seq<char> {
    if valid_utf8(bytes) {
        decode_utf8(bytes)
    } else {
        lossy_text(bytes)
    }
}

/// The text that the `Debug` form of a `BytesMut` holding `bytes` shows: a byte
/// string literal with escapes.
pub uninterp spec fn escaped_text(bytes: Seq<u8>) -> Seq<char>;

/// The text that the `Debug` form of the slice `bytes` shows: a bracketed list of
/// numbers.
pub uninterp spec fn listed_text(bytes: Seq<u8>) -> Seq<char>;

/// `String::from_utf8_lossy`, made into an owned string. For bytes that are valid
/// UTF-8 the result is the text they encode; for others it depends on the bytes
/// alone.
#[verifier::external_body]
pub(crate) fn read_lossy(bytes: &[u8]) -> (text: String)
    ensures
        valid_utf8(bytes@) ==> text@ == decode_utf8(bytes@),
        !valid_utf8(bytes@) ==> text@ == lossy_text(bytes@),
{
    String::from_utf8_lossy(bytes).into_owned()
}

/// `Debug` for `BytesMut`, on a buffer made from `bytes` by `BytesMut::from`. The
/// result depends on the bytes alone.
#[verifier::external_body]
pub(crate) fn render_escaped(bytes: &[u8]) -> (text: String)
    ensures
        text@ == escaped_text(bytes@),
{
    format!("{:?}", BytesMut::from(bytes))
}

/// `Debug` for a slice of `u8`. The result depends on the bytes alone.
#[verifier::external_body]
pub(crate) fn render_listed(bytes: &[u8]) -> (text: String)
    ensures
        text@ == listed_text(bytes@),
{
    format!("{:?}", bytes)
}

} // verus!
