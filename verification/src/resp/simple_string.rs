//! Simple strings: a line of text behind `+`.

use vstd::prelude::*;

verus! {

/// A simple string: text that holds no line terminator when it comes off
/// the wire.
#[derive(Debug, PartialEq, Eq)]
pub struct SimpleString(pub(crate) String);

impl View for SimpleString {
    type V = Seq<char>;

    open(crate) spec fn view(&self) -> Seq<char> {
        self.0@
    }
}

impl Clone for SimpleString {
    fn clone(&self) -> (r: Self)
        ensures
            r@ == self@,
    {
        SimpleString(self.0.clone())
    }
}

impl SimpleString {
    /// A simple string that holds the text `s`.
    pub fn new(s: &str) -> (r: Self)
        ensures
            r@ == s@,
    {
        SimpleString(s.to_string())
    }

    /// The text.
    pub fn as_str(&self) -> (s: &str)
        ensures
            s@ == self@,
    {
        self.0.as_str()
    }
}

} // verus!
