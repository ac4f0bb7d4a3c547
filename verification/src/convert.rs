//! Conversions into frames: from each type of value to the frame that holds it, and
//! from plain text and bytes. The constructors of the value types convert their
//! argument with `Into`, which for a value of the wanted type itself is std's
//! conversion of a type into itself.

use crate::frame::BulkString;
use crate::frame::Frame;
use crate::frame::RespArray;
use crate::frame::RespDouble;
use crate::frame::RespFrame;
use crate::frame::RespMap;
use crate::frame::RespNull;
use crate::frame::RespNullArray;
use crate::frame::RespNullBulkString;
use crate::frame::RespSet;
use crate::frame::SimpleError;
use crate::frame::SimpleString;
use vstd::prelude::*;
use vstd::slice::slice_to_vec;
use vstd::std_specs::convert::FromSpecImpl;

verus! {

/// `From::from` of a type for itself, which `Into::into` of a value for its own type
/// comes to: the value as it is.
pub assume_specification<Any>[ <Any as From<Any>>::from ](value: Any) -> (same: Any)
    ensures
        same == value,
;

impl From<SimpleString> for RespFrame {
    fn from(value: SimpleString) -> (frame: Self) {
        RespFrame::SimpleString(value)
    }
}

impl FromSpecImpl<SimpleString> for RespFrame {
    open spec fn obeys_from_spec() -> bool {
        true
    }

    open spec fn from_spec(value: SimpleString) -> Self {
        RespFrame::SimpleString(value)
    }
}

impl From<SimpleError> for RespFrame {
    fn from(value: SimpleError) -> (frame: Self) {
        RespFrame::Error(value)
    }
}

impl FromSpecImpl<SimpleError> for RespFrame {
    open spec fn obeys_from_spec() -> bool {
        true
    }

    open spec fn from_spec(value: SimpleError) -> Self {
        RespFrame::Error(value)
    }
}

impl From<i64> for RespFrame {
    fn from(value: i64) -> (frame: Self) {
        RespFrame::Integer(value)
    }
}

impl FromSpecImpl<i64> for RespFrame {
    open spec fn obeys_from_spec() -> bool {
        true
    }

    open spec fn from_spec(value: i64) -> Self {
        RespFrame::Integer(value)
    }
}

impl From<BulkString> for RespFrame {
    fn from(value: BulkString) -> (frame: Self) {
        RespFrame::BulkString(value)
    }
}

impl FromSpecImpl<BulkString> for RespFrame {
    open spec fn obeys_from_spec() -> bool {
        true
    }

    open spec fn from_spec(value: BulkString) -> Self {
        RespFrame::BulkString(value)
    }
}

impl From<RespNullBulkString> for RespFrame {
    fn from(value: RespNullBulkString) -> (frame: Self) {
        RespFrame::NullBulkString(value)
    }
}

impl FromSpecImpl<RespNullBulkString> for RespFrame {
    open spec fn obeys_from_spec() -> bool {
        true
    }

    open spec fn from_spec(value: RespNullBulkString) -> Self {
        RespFrame::NullBulkString(value)
    }
}

impl From<RespArray> for RespFrame {
    fn from(value: RespArray) -> (frame: Self) {
        RespFrame::Array(value)
    }
}

impl FromSpecImpl<RespArray> for RespFrame {
    open spec fn obeys_from_spec() -> bool {
        true
    }

    open spec fn from_spec(value: RespArray) -> Self {
        RespFrame::Array(value)
    }
}

impl From<RespNull> for RespFrame {
    fn from(value: RespNull) -> (frame: Self) {
        RespFrame::Null(value)
    }
}

impl FromSpecImpl<RespNull> for RespFrame {
    open spec fn obeys_from_spec() -> bool {
        true
    }

    open spec fn from_spec(value: RespNull) -> Self {
        RespFrame::Null(value)
    }
}

impl From<RespNullArray> for RespFrame {
    fn from(value: RespNullArray) -> (frame: Self) {
        RespFrame::NullArray(value)
    }
}

impl FromSpecImpl<RespNullArray> for RespFrame {
    open spec fn obeys_from_spec() -> bool {
        true
    }

    open spec fn from_spec(value: RespNullArray) -> Self {
        RespFrame::NullArray(value)
    }
}

impl From<bool> for RespFrame {
    fn from(value: bool) -> (frame: Self) {
        RespFrame::Boolean(value)
    }
}

impl FromSpecImpl<bool> for RespFrame {
    open spec fn obeys_from_spec() -> bool {
        true
    }

    open spec fn from_spec(value: bool) -> Self {
        RespFrame::Boolean(value)
    }
}

impl From<RespDouble> for RespFrame {
    fn from(value: RespDouble) -> (frame: Self) {
        RespFrame::Double(value)
    }
}

impl FromSpecImpl<RespDouble> for RespFrame {
    open spec fn obeys_from_spec() -> bool {
        true
    }

    open spec fn from_spec(value: RespDouble) -> Self {
        RespFrame::Double(value)
    }
}

impl From<RespMap> for RespFrame {
    fn from(value: RespMap) -> (frame: Self) {
        RespFrame::RespMap(value)
    }
}

impl FromSpecImpl<RespMap> for RespFrame {
    open spec fn obeys_from_spec() -> bool {
        true
    }

    open spec fn from_spec(value: RespMap) -> Self {
        RespFrame::RespMap(value)
    }
}

impl From<RespSet> for RespFrame {
    fn from(value: RespSet) -> (frame: Self) {
        RespFrame::RespSet(value)
    }
}

impl FromSpecImpl<RespSet> for RespFrame {
    open spec fn obeys_from_spec() -> bool {
        true
    }

    open spec fn from_spec(value: RespSet) -> Self {
        RespFrame::RespSet(value)
    }
}

impl<'a> From<&'a str> for RespFrame {
    /// A text becomes a simple string.
    fn from(value: &'a str) -> (frame: Self)
        ensures
            frame@ == Frame::SimpleString(value@),
    {
        RespFrame::SimpleString(SimpleString(String::from_str(value)))
    }
}

impl<'a> FromSpecImpl<&'a str> for RespFrame {
    open spec fn obeys_from_spec() -> bool {
        false
    }

    open spec fn from_spec(value: &'a str) -> Self {
        RespFrame::Null(RespNull)
    }
}

impl<'a> From<&'a [u8]> for RespFrame {
    /// Bytes become a bulk string.
    fn from(value: &'a [u8]) -> (frame: Self)
        ensures
            frame@ == Frame::BulkString(value@),
    {
        RespFrame::BulkString(BulkString(slice_to_vec(value)))
    }
}

impl<'a> FromSpecImpl<&'a [u8]> for RespFrame {
    open spec fn obeys_from_spec() -> bool {
        false
    }

    open spec fn from_spec(value: &'a [u8]) -> Self {
        RespFrame::Null(RespNull)
    }
}

impl<'a, const N: usize> From<&'a [u8; N]> for RespFrame {
    /// An array of bytes becomes a bulk string.
    fn from(value: &'a [u8; N]) -> (frame: Self)
        ensures
            frame@ == Frame::BulkString(value@),
    {
        RespFrame::BulkString(BulkString(slice_to_vec(value.as_slice())))
    }
}

impl<'a, const N: usize> FromSpecImpl<&'a [u8; N]> for RespFrame {
    open spec fn obeys_from_spec() -> bool {
        false
    }

    open spec fn from_spec(value: &'a [u8; N]) -> Self {
        RespFrame::Null(RespNull)
    }
}

} // verus!
