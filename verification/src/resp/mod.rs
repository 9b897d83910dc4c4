//! The wire protocol: the frame model, its decoder and its encoder.

pub mod array;
pub mod buffer;
pub mod bulk_string;
pub mod decimal;
pub mod decode;
pub mod double;
pub mod encode;
pub mod frame;
pub mod laws;
pub mod map;
pub mod null;
pub mod roundtrip;
pub mod set;
pub mod simple_error;
pub mod simple_string;
pub mod text;
pub mod util;
pub mod wire;

pub use self::array::{RespArray, RespNullArray};
pub use self::bulk_string::{BulkString, RespNullBulkString};
pub use self::double::RespDouble;
pub use self::frame::{FrameValue, RespFrame};
pub use self::map::RespMap;
pub use self::null::RespNull;
pub use self::roundtrip::is_wire_safe;
pub use self::set::RespSet;
pub use self::simple_error::SimpleError;
pub use self::simple_string::SimpleString;
pub use self::util::{
    calc_total_length, extract_fixed_data, extract_simple_frame_data, find_crlf, parse_length,
};
use bytes::BytesMut;
use vstd::prelude::*;

verus! {

/// Length of the line terminator that ends every header and simple frame.
pub const CRLF_LEN: usize = 2;

/// Why a buffer could not be decoded.
///
/// `NotComplete` asks the caller to retry once more bytes have arrived;
/// every other variant is fatal for the connection.
#[derive(Debug, Clone, Copy, PartialEq, Eq)]
pub enum RespError {
    /// The bytes do not form a frame.
    InvalidFrame,
    /// The sigil or a fixed literal does not match what was expected.
    InvalidFrameType,
    /// The buffer ends before the frame does.
    NotComplete,
    /// An integer or a length is not a decimal literal, or does not fit.
    ParseIntError,
    /// The payload of a double is not a decimal floating point literal.
    ParseFloatError,
}

/// What a decoder has to do with a buffer: on success it hands out the
/// value that the grammar gives and takes exactly the bytes of that one
/// frame off the front; on any error it leaves the buffer as it was.
pub open spec fn decode_matches<T: View>(
    r: Result<T, RespError>,
    parsed: wire::Parsed<T::V>,
    before: Seq<u8>,
    after: Seq<u8>,
) -> bool {
    match r {
        Ok(value) => parsed matches Ok((v, used)) && value@ == v && 0 < used <= before.len()
            && after == before.skip(used),
        Err(e) => parsed == Err::<(T::V, int), RespError>(e) && after == before,
    }
}

/// A value that can be read off the front of a receive buffer.
pub trait RespDecode: Sized + View {
    /// The sigil that the value begins with on the wire.
    const PREFIX: &'static str;

    /// What the bytes `s` decode to: the value at their front and the
    /// number of bytes it takes, or the reason why there is none.
    spec fn parsed(s: Seq<u8>) -> wire::Parsed<Self::V>;

    /// The number of bytes that the value at the front of `s` will occupy
    /// once it has been received in full.
    spec fn measured(s: Seq<u8>) -> Result<int, RespError>;

    /// Decodes one value from the front of the buffer, all or nothing.
    fn decode(buf: &mut BytesMut) -> (r: Result<Self, RespError>)
        ensures
            decode_matches(
                r,
                Self::parsed(buffer::buffer_bytes(*old(buf))),
                buffer::buffer_bytes(*old(buf)),
                buffer::buffer_bytes(*final(buf)),
            ),
    ;

    /// Measures the value at the front of `buf` without reading it.
    fn expect_length(buf: &[u8]) -> (r: Result<usize, RespError>)
        ensures
            util::length_matches(r, Self::measured(buf@)),
    ;
}

/// A value that has one canonical form on the wire.
pub trait RespEncode {
    /// The bytes that stand for the value.
    spec fn encoding(self) -> Seq<u8>;

    /// Encodes the value. This cannot fail.
    fn encode(self) -> (out: Vec<u8>)
        ensures
            out@ == self.encoding(),
    ;
}

} // verus!
