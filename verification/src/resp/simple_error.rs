//! Errors: a line of text behind `-`.

use vstd::prelude::*;

verus! {

/// An error reply: text that holds no line terminator when it comes off
/// the wire.
#[derive(Debug, PartialEq, Eq)]
pub struct SimpleError(pub(crate) String);

impl View for SimpleError {
    type V = Seq<char>;

    open(crate) spec fn view(&self) -> Seq<char> {
        self.0@
    }
}

impl Clone for SimpleError {
    fn clone(&self) -> (r: Self)
        ensures
            r@ == self@,
    {
        SimpleError(self.0.clone())
    }
}

impl SimpleError {
    /// An error reply that holds the text `s`.
    pub fn new(s: &str) -> (r: Self)
        ensures
            r@ == s@,
    {
        SimpleError(s.to_string())
    }

    /// The text.
    pub fn as_str(&self) -> (s: &str)
        ensures
            s@ == self@,
    {
        self.0.as_str()
    }
}

} // verus!
