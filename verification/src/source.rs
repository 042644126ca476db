//! An accumulating text buffer: one builder per logical output unit, passed
//! by reference through the emission pass.

use vstd::prelude::*;
use vstd::string::StringExecFns;

verus! {

/// A growing piece of Go source text.
pub struct Source {
    text: String,
}

impl View for Source {
    type V = Seq<char>;

    closed spec fn view(&self) -> Seq<char> {
        self.text@
    }
}

impl Source {
    pub fn new() -> (r: Source)
        ensures
            r@ == Seq::<char>::empty(),
    {
        Source { text: String::new() }
    }

    /// Append a piece of text.
    pub fn go(&mut self, s: &str)
        ensures
            final(self)@ == old(self)@ + s@,
    {
        self.text.append(s);
    }

    /// Hand the accumulated text out and leave the buffer empty.
    pub fn take(&mut self) -> (r: String)
        ensures
            r@ == old(self)@,
            final(self)@ == Seq::<char>::empty(),
    {
        let r = self.text.clone();
        self.text = String::new();
        r
    }

    pub fn as_str(&self) -> (r: &str)
        ensures
            r@ == self@,
    {
        self.text.as_str()
    }
}

} // verus!
