//! The document index: a fixed, ordered collection of named sheets, looked
//! up by position.

use vstd::prelude::*;

verus! {

/// One bundled sheet: an identifier and its raw text. Immutable once loaded.
pub struct Document {
    pub name: String,
    pub text: String,
}

/// The mathematical content of a `Document`.
#[verifier::ext_equal]
pub ghost struct DocumentView {
    pub name: Seq<char>,
    pub text: Seq<char>,
}

impl View for Document {
    type V = DocumentView;

    open spec fn view(&self) -> DocumentView {
        DocumentView { name: self.name@, text: self.text@ }
    }
}

impl DeepView for Document {
    type V = DocumentView;

    open spec fn deep_view(&self) -> DocumentView {
        self@
    }
}

/// A read-only, ordered collection of documents; the order of addition is
/// the display order.
pub struct DocumentIndex {
    docs: Vec<Document>,
}

impl View for DocumentIndex {
    type V = Seq<DocumentView>;

    closed spec fn view(&self) -> Seq<DocumentView> {
        self.docs.deep_view()
    }
}

impl DocumentIndex {
    /// An index holding no documents yet.
    pub fn new() -> (r: DocumentIndex)
        ensures
            r@ == Seq::<DocumentView>::empty(),
    {
        let r = DocumentIndex { docs: Vec::new() };
        proof {
            assert(r@ =~= Seq::<DocumentView>::empty());
        }
        r
    }

    /// Appends one document at the end of the display order.
    pub fn add(&mut self, name: String, text: String)
        ensures
            final (self)@ == old(self)@.push(DocumentView { name: name@, text: text@ }),
    {
        let ghost before = self.docs.deep_view();
        let d = Document { name, text };
        let ghost dv = d@;
        self.docs.push(d);
        proof {
            assert(self.docs.deep_view() =~= before.push(dv));
        }
    }

    /// How many documents the index holds.
    pub fn len(&self) -> (r: usize)
        ensures
            r == self@.len(),
    {
        self.docs.len()
    }

    /// Zero-based lookup: the document at `position`, or `None` when the
    /// position is out of range — never a hard failure.
    pub fn get(&self, position: usize) -> (r: Option<&Document>)
        ensures
            match r {
                Some(d) => position < self@.len() && d@ == self@[position as int],
                None => position >= self@.len(),
            },
    {
        if position < self.docs.len() {
            let d = &self.docs[position];
            proof {
                assert(self@[position as int] == self.docs@[position as int].deep_view());
            }
            Some(d)
        } else {
            None
        }
    }
}

} // verus!
