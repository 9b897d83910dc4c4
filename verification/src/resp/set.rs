//! Sets: a counted run of frames behind `~`.

use super::frame::{clone_frames, frame_values, FrameValue, RespFrame};
use vstd::prelude::*;

verus! {

/// A set reply: its members in the order in which they were given.
#[derive(Debug, PartialEq, Eq)]
pub struct RespSet(pub(crate) Vec<RespFrame>);

impl View for RespSet {
    type V = Seq<FrameValue>;

    open(crate) spec fn view(&self) -> Seq<FrameValue> {
        frame_values(self.0@)
    }
}

impl Clone for RespSet {
    fn clone(&self) -> (r: Self)
        ensures
            r@ == self@,
    {
        RespSet(clone_frames(&self.0))
    }
}

impl RespSet {
    /// A set that holds `frames`.
    pub fn new(frames: Vec<RespFrame>) -> (r: Self)
        ensures
            r@ == frame_values(frames@),
    {
        RespSet(frames)
    }

    /// The number of members.
    pub fn len(&self) -> (n: usize)
        ensures
            n == self@.len(),
    {
        self.0.len()
    }

    /// The members, in order.
    pub fn frames(&self) -> (r: &Vec<RespFrame>)
        ensures
            frame_values(r@) == self@,
    {
        &self.0
    }
}

} // verus!
