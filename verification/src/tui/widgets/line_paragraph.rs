//! A paragraph of one line of text.

use vstd::prelude::*;

verus! {

/// A paragraph of one line of text.
pub struct LineParagraph {
    pub text: String,
}

impl LineParagraph {
    pub fn new(text: String) -> (p: Self)
        ensures
            p.text@ == text@,
    {
        LineParagraph { text }
    }
}

} // verus!
