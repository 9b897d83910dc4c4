//! The null frame, written `_`.

use vstd::prelude::*;

verus! {

/// The null value.
#[derive(Debug, Clone, Copy, PartialEq, Eq)]
pub struct RespNull;

impl View for RespNull {
    type V = RespNull;

    open spec fn view(&self) -> RespNull {
        *self
    }
}

} // verus!
