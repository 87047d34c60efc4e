//! Items that can give a short summary of themselves.
use vstd::prelude::*;

verus! {

/// Something that can summarise itself as text.
pub trait Summary {
    /// The text of the summary.
    spec fn summary_text(&self) -> Seq<char>;

    fn summarize(&self) -> (s: String)
        ensures
            s@ == self.summary_text(),
    ;
}

/// A titled piece of text.
pub struct Deva {
    pub title: String,
    pub text: String,
}

impl Summary for Deva {
    /// A `Deva` is summarised by its text.
    open spec fn summary_text(&self) -> Seq<char> {
        self.text@
    }

    fn summarize(&self) -> (s: String)
        ensures
            s@ == self.text@,
    {
        self.text.clone()
    }
}

} // verus!

verus! {

/// A `Deva` is summarised by its whole text, unshortened.
pub proof fn law_deva_summary_is_whole_text(d: Deva)
    ensures
        d.summary_text() == d.text@,
        d.summary_text().len() == d.text@.len(),
{
}

} // verus!
