//! Arrays: a counted run of frames behind `*`.

use super::frame::{clone_frames, frame_values, FrameValue, RespFrame};
use vstd::prelude::*;

verus! {

/// An array of frames, in order. It may be empty.
#[derive(Debug, PartialEq, Eq)]
pub struct RespArray(pub(crate) Vec<RespFrame>);

/// The array that is absent, written `*-1`. It is not the empty array.
#[derive(Debug, Clone, Copy, PartialEq, Eq)]
pub struct RespNullArray;

impl View for RespNullArray {
    type V = RespNullArray;

    open spec fn view(&self) -> RespNullArray {
        *self
    }
}

impl View for RespArray {
    type V = Seq<FrameValue>;

    open(crate) spec fn view(&self) -> Seq<FrameValue> {
        frame_values(self.0@)
    }
}

impl Clone for RespArray {
    fn clone(&self) -> (r: Self)
        ensures
            r@ == self@,
    {
        RespArray(clone_frames(&self.0))
    }
}

impl RespArray {
    /// An array that holds `frames`.
    pub fn new(frames: Vec<RespFrame>) -> (r: Self)
        ensures
            r@ == frame_values(frames@),
    {
        RespArray(frames)
    }

    /// The number of frames.
    pub fn len(&self) -> (n: usize)
        ensures
            n == self@.len(),
    {
        self.0.len()
    }

    /// The frames, in order.
    pub fn frames(&self) -> (r: &Vec<RespFrame>)
        ensures
            frame_values(r@) == self@,
    {
        &self.0
    }
}

} // verus!
