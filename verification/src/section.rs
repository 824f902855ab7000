//! The section record: a titled, contiguous span of source lines.

use vstd::prelude::*;

verus! {

/// A titled, contiguous span of a sheet's lines. `content` is the verbatim
/// text of the span, with its own divider and header lines included.
pub struct Section {
    pub title: String,
    pub content: String,
}

/// The mathematical content of a `Section`: title and content as character
/// sequences.
#[verifier::ext_equal]
pub ghost struct SectionView {
    pub title: Seq<char>,
    pub content: Seq<char>,
}

impl View for Section {
    type V = SectionView;

    open spec fn view(&self) -> SectionView {
        SectionView { title: self.title@, content: self.content@ }
    }
}

impl DeepView for Section {
    type V = SectionView;

    open spec fn deep_view(&self) -> SectionView {
        self@
    }
}

impl Section {
    pub fn new(title: String, content: String) -> (s: Section)
        ensures
            s@ == (SectionView { title: title@, content: content@ }),
    {
        Section { title, content }
    }
}

} // verus!
