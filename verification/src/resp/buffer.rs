//! The receive buffer: `bytes::BytesMut`, seen by the verifier as the
//! sequence of bytes it currently holds.

use bytes::Buf;
use bytes::BytesMut;
use vstd::prelude::*;

verus! {

/// `bytes::BytesMut`, carried through as it is. Nothing inside it is
/// looked at; what it holds is named by `buffer_bytes`.
#[verifier::external_type_specification]
#[verifier::external_body]
pub struct ExBytesMut(BytesMut);

/// The bytes that a buffer holds, first unread byte first.
pub uninterp spec fn buffer_bytes(buf: BytesMut) -> Seq<u8>;

/// `AsRef<[u8]>::as_ref` of `BytesMut`: the held bytes as a slice.
pub assume_specification[ <BytesMut as AsRef<[u8]>>::as_ref ](buf: &BytesMut) -> (s: &[u8])
    ensures
        s@ == buffer_bytes(*buf),
;

/// `Buf::advance` of `BytesMut`: drops the first `cnt` bytes and keeps the
/// rest in order. The call panics when `cnt` exceeds what is held, so that
/// is required of the caller.
pub assume_specification[ <BytesMut as Buf>::advance ](buf: &mut BytesMut, cnt: usize)
    requires
        cnt <= buffer_bytes(*old(buf)).len(),
    ensures
        buffer_bytes(*final(buf)) == buffer_bytes(*old(buf)).skip(cnt as int),
;

/// `BytesMut::extend_from_slice`: puts `extend` behind the bytes held.
pub assume_specification[ BytesMut::extend_from_slice ](buf: &mut BytesMut, extend: &[u8])
    ensures
        buffer_bytes(*final(buf)) == buffer_bytes(*old(buf)) + extend@,
;

} // verus!
