//! Bulk strings: a counted run of arbitrary bytes behind `$`.

use vstd::prelude::*;

verus! {

/// A bulk string: any bytes, the empty run included.
#[derive(Debug, PartialEq, Eq)]
pub struct BulkString(pub(crate) Vec<u8>);

/// The bulk string that is absent, written `$-1`. It is not the empty bulk
/// string.
#[derive(Debug, Clone, Copy, PartialEq, Eq)]
pub struct RespNullBulkString;

impl View for RespNullBulkString {
    type V = RespNullBulkString;

    open spec fn view(&self) -> RespNullBulkString {
        *self
    }
}

impl View for BulkString {
    type V = Seq<u8>;

    open(crate) spec fn view(&self) -> Seq<u8> {
        self.0@
    }
}

impl Clone for BulkString {
    fn clone(&self) -> (r: Self)
        ensures
            r@ == self@,
    {
        BulkString(self.0.clone())
    }
}

impl BulkString {
    /// A bulk string that holds `bytes`.
    pub fn new(bytes: Vec<u8>) -> (r: Self)
        ensures
            r@ == bytes@,
    {
        BulkString(bytes)
    }

    /// The bytes.
    pub fn as_bytes(&self) -> (r: &[u8])
        ensures
            r@ == self@,
    {
        self.0.as_slice()
    }

    /// The number of bytes.
    pub fn len(&self) -> (n: usize)
        ensures
            n == self@.len(),
    {
        self.0.len()
    }
}

} // verus!
