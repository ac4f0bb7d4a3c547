//! A codec for the RESP wire protocol: typed frames, their canonical bytes, and an
//! incremental decoder that takes one frame at a time from the front of a buffer
//! and leaves the buffer alone until a whole frame is there.

pub mod buffer;
pub mod convert;
pub mod decimal;
pub mod decode;
pub mod double;
pub mod encode;
pub mod error;
pub mod frame;
pub mod laws;
pub mod length;
pub mod lines;
pub mod order;
pub mod partial;
pub mod roundtrip;
pub mod scan;
pub mod text;

pub use decode::extract_fixed_data;
pub use decode::RespDecode;
pub use double::double_notation;
pub use double::with_explicit_sign;
pub use double::Notation;
pub use encode::RespEncode;
pub use error::FloatErrorKind;
pub use error::IntErrorKind;
pub use error::RespDecodeError;
pub use frame::BulkString;
pub use frame::RespArray;
pub use frame::RespDouble;
pub use frame::RespFrame;
pub use frame::RespMap;
pub use frame::RespNull;
pub use frame::RespNullArray;
pub use frame::RespNullBulkString;
pub use frame::RespSet;
pub use frame::SimpleError;
pub use frame::SimpleString;
pub use length::calc_total_length;
pub use scan::extract_simple_frame_data;
pub use scan::find_crlf;
pub use scan::parse_length;
