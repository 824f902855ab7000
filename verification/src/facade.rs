//! The four user-facing queries over the document index: list every sheet,
//! outline one sheet, fetch one section's content, fetch the full raw text.
//! Each validates its indices and maps failures to a small error taxonomy;
//! rendering the returned text is the caller's concern.

use vstd::prelude::*;

use crate::index::{DocumentIndex, DocumentView};
use crate::names::{display_name_spec, format_name};
use crate::numbers::{dec_spec, format_usize, parse_usize, parse_usize_spec};
use crate::parser::{parse_spec, CheatSheet, ParseError};
use crate::section::{Section, SectionView};

verus! {

/// Why a query failed.
#[derive(Clone, Copy, Debug, PartialEq, Eq, Structural)]
pub enum QueryError {
    /// The requested sheet index is out of range.
    SheetNotFound(usize),
    /// The section argument is not a positive integer, is zero, or exceeds
    /// the sheet's section count.
    InvalidSectionNumber,
    /// The sheet could not be segmented.
    Parse(ParseError),
}

/// The message shown for a failure.
pub open spec fn error_message_spec(e: QueryError) -> Seq<char> {
    match e {
        QueryError::SheetNotFound(i) => "Could not find sheet at index "@ + dec_spec(i as nat),
        QueryError::InvalidSectionNumber => "Invalid section number"@,
        QueryError::Parse(ParseError::MissingTitle) => "Missing section title"@,
        QueryError::Parse(ParseError::MissingSeparator) => "Invalid section title format"@,
        QueryError::Parse(ParseError::MissingBody) => "Missing section body"@,
    }
}

impl QueryError {
    /// Renders this failure's message.
    pub fn message(&self) -> (r: String)
        ensures
            r@ == error_message_spec(*self),
    {
        match self {
            QueryError::SheetNotFound(i) => {
                let mut s = String::from_str("Could not find sheet at index ");
                let num = format_usize(*i);
                s.append(num.as_str());
                s
            },
            QueryError::InvalidSectionNumber => String::from_str("Invalid section number"),
            QueryError::Parse(ParseError::MissingTitle) => String::from_str(
                "Missing section title",
            ),
            QueryError::Parse(ParseError::MissingSeparator) => String::from_str(
                "Invalid section title format",
            ),
            QueryError::Parse(ParseError::MissingBody) => String::from_str(
                "Missing section body",
            ),
        }
    }
}

/// The display header of the sheet at `index`: `"{index} - {DisplayName}"`.
pub open spec fn header_line_spec(index: int, name: Seq<char>) -> Seq<char> {
    dec_spec(index as nat) + " - "@ + display_name_spec(name)
}

/// One outline entry, 1-based: a tree glyph marking whether the entry is the
/// last one, then `"{n}. {title}"`.
pub open spec fn entry_spec(k: int, n: int, title: Seq<char>) -> Seq<char> {
    (if k == n - 1 {
        "└── "@
    } else {
        "├── "@
    }) + dec_spec((k + 1) as nat) + ". "@ + title
}

/// All outline entries of a section list, in order.
pub open spec fn outline_entries_spec(secs: Seq<SectionView>) -> Seq<Seq<char>> {
    Seq::new(secs.len(), |k: int| entry_spec(k, secs.len() as int, secs[k].title))
}

/// What outlining the sheet at `index` yields: its display header and one
/// entry per section, or the first failure met.
pub open spec fn outline_spec(docs: Seq<DocumentView>, index: usize) -> Result<
    (Seq<char>, Seq<Seq<char>>),
    QueryError,
> {
    if index >= docs.len() {
        Err(QueryError::SheetNotFound(index))
    } else {
        match parse_spec(docs[index as int].text) {
            Err(pe) => Err(QueryError::Parse(pe)),
            Ok(secs) => Ok(
                (header_line_spec(index as int, docs[index as int].name), outline_entries_spec(
                    secs,
                )),
            ),
        }
    }
}

/// What fetching one section yields: the full raw text for the literal
/// `"0"`, the 1-based section's verbatim content for a number in range, and
/// otherwise the first failure met.
pub open spec fn fetch_section_spec(
    docs: Seq<DocumentView>,
    sheet_index: usize,
    section_number: Seq<char>,
) -> Result<Seq<char>, QueryError> {
    if sheet_index >= docs.len() {
        Err(QueryError::SheetNotFound(sheet_index))
    } else if section_number == "0"@ {
        Ok(docs[sheet_index as int].text)
    } else {
        match parse_spec(docs[sheet_index as int].text) {
            Err(pe) => Err(QueryError::Parse(pe)),
            Ok(secs) => match parse_usize_spec(section_number) {
                None => Err(QueryError::InvalidSectionNumber),
                Some(n) => if n == 0 || n > secs.len() {
                    Err(QueryError::InvalidSectionNumber)
                } else {
                    Ok(secs[n - 1].content)
                },
            },
        }
    }
}

/// What fetching a sheet's full raw text yields.
pub open spec fn fetch_full_spec(docs: Seq<DocumentView>, sheet_index: usize) -> Result<
    Seq<char>,
    QueryError,
> {
    if sheet_index >= docs.len() {
        Err(QueryError::SheetNotFound(sheet_index))
    } else {
        Ok(docs[sheet_index as int].text)
    }
}

/// The best-effort listing: every sheet from position `i` on that parses,
/// as its header and outline entries; sheets that fail to parse are skipped.
pub open spec fn listing_spec(docs: Seq<DocumentView>, i: int) -> Seq<(Seq<char>, Seq<Seq<char>>)>
    decreases docs.len() - i,
{
    if i < 0 || i >= docs.len() {
        Seq::empty()
    } else {
        let rest = listing_spec(docs, i + 1);
        match parse_spec(docs[i].text) {
            Ok(secs) => seq![(header_line_spec(i, docs[i].name), outline_entries_spec(secs))]
                + rest,
            Err(_) => rest,
        }
    }
}

/// Builds the display header of one sheet.
fn make_header(index: usize, name: &str) -> (r: String)
    ensures
        r@ == header_line_spec(index as int, name@),
{
    let mut h = format_usize(index);
    h.append(" - ");
    let d = format_name(name);
    h.append(d.as_str());
    h
}

/// Builds the outline entries of a section list, 1-based, the last entry
/// marked with its own glyph.
fn outline_entries(sections: &Vec<Section>) -> (r: Vec<String>)
    ensures
        r.deep_view() == outline_entries_spec(sections.deep_view()),
{
    let n = sections.len();
    let mut r: Vec<String> = Vec::new();
    let mut k: usize = 0;
    while k < n
        invariant
            n == sections@.len(),
            k <= n,
            sections.deep_view().len() == n,
            r.deep_view().len() == k,
            forall|m: int|
                0 <= m < k ==> r.deep_view()[m] == entry_spec(
                    m,
                    n as int,
                    sections.deep_view()[m].title,
                ),
        decreases n - k,
    {
        let ghost prev = r.deep_view();
        let mut e = if k == n - 1 {
            String::from_str("└── ")
        } else {
            String::from_str("├── ")
        };
        let num = format_usize(k + 1);
        e.append(num.as_str());
        e.append(". ");
        let sec = &sections[k];
        e.append(sec.title.as_str());
        proof {
            assert(sections.deep_view()[k as int] == sections@[k as int]@);
            assert(e@ == entry_spec(k as int, n as int, sections.deep_view()[k as int].title));
        }
        r.push(e);
        proof {
            assert(r.deep_view() =~= prev.push(e@));
        }
        k = k + 1;
    }
    proof {
        assert(r.deep_view() =~= outline_entries_spec(sections.deep_view()));
    }
    r
}

impl DocumentIndex {
    /// Looks one sheet up and segments it, propagating both kinds of
    /// failure.
    pub fn parse_at(&self, position: usize) -> (r: Result<CheatSheet, QueryError>)
        ensures
            match r {
                Ok(cs) => position < self@.len() && parse_spec(self@[position as int].text)
                    == Ok::<Seq<SectionView>, ParseError>(cs@),
                Err(QueryError::SheetNotFound(i)) => i == position && position >= self@.len(),
                Err(QueryError::Parse(pe)) => position < self@.len() && parse_spec(
                    self@[position as int].text,
                ) == Err::<Seq<SectionView>, ParseError>(pe),
                Err(QueryError::InvalidSectionNumber) => false,
            },
    {
        let d = match self.get(position) {
            Some(d) => d,
            None => {
                return Err(QueryError::SheetNotFound(position));
            },
        };
        match CheatSheet::parse(d.text.as_str()) {
            Ok(cs) => Ok(cs),
            Err(pe) => Err(QueryError::Parse(pe)),
        }
    }

    /// Outlines one sheet: its display header and one line per section.
    /// Fails when the sheet index is out of range or the sheet cannot be
    /// segmented.
    pub fn outline(&self, index: usize) -> (r: Result<(String, Vec<String>), QueryError>)
        ensures
            match r {
                Ok(p) => outline_spec(self@, index) == Ok::<
                    (Seq<char>, Seq<Seq<char>>),
                    QueryError,
                >((p.0@, p.1.deep_view())),
                Err(e) => outline_spec(self@, index) == Err::<
                    (Seq<char>, Seq<Seq<char>>),
                    QueryError,
                >(e),
            },
    {
        let d = match self.get(index) {
            Some(d) => d,
            None => {
                return Err(QueryError::SheetNotFound(index));
            },
        };
        let cs = match CheatSheet::parse(d.text.as_str()) {
            Ok(cs) => cs,
            Err(pe) => {
                return Err(QueryError::Parse(pe));
            },
        };
        let header = make_header(index, d.name.as_str());
        let entries = outline_entries(&cs.sections);
        Ok((header, entries))
    }

    /// Fetches content for one sheet argument pair: the full raw text for
    /// the literal `"0"`, otherwise the 1-based section's verbatim content.
    /// Fails when the sheet index is out of range, the sheet cannot be
    /// segmented, or the section number is not a positive integer in range.
    pub fn fetch_section(&self, sheet_index: usize, section_number: &str) -> (r: Result<
        String,
        QueryError,
    >)
        ensures
            match r {
                Ok(s) => fetch_section_spec(self@, sheet_index, section_number@) == Ok::<
                    Seq<char>,
                    QueryError,
                >(s@),
                Err(e) => fetch_section_spec(self@, sheet_index, section_number@) == Err::<
                    Seq<char>,
                    QueryError,
                >(e),
            },
    {
        let d = match self.get(sheet_index) {
            Some(d) => d,
            None => {
                return Err(QueryError::SheetNotFound(sheet_index));
            },
        };
        let is_zero = section_number.unicode_len() == 1 && section_number.get_char(0) == '0';
        proof {
            reveal_strlit("0");
            assert(is_zero == (section_number@ =~= "0"@));
        }
        if is_zero {
            return Ok(d.text.clone());
        }
        let cs = match CheatSheet::parse(d.text.as_str()) {
            Ok(cs) => cs,
            Err(pe) => {
                return Err(QueryError::Parse(pe));
            },
        };
        let n = match parse_usize(section_number) {
            Some(n) => n,
            None => {
                return Err(QueryError::InvalidSectionNumber);
            },
        };
        if n == 0 || n > cs.sections.len() {
            return Err(QueryError::InvalidSectionNumber);
        }
        let sec = &cs.sections[n - 1];
        proof {
            assert(cs@[n - 1] == cs.sections@[n - 1]@);
        }
        Ok(sec.content.clone())
    }

    /// Fetches one sheet's entire original text, bypassing segmentation.
    /// Fails only when the sheet index is out of range.
    pub fn fetch_full(&self, sheet_index: usize) -> (r: Result<String, QueryError>)
        ensures
            match r {
                Ok(s) => fetch_full_spec(self@, sheet_index) == Ok::<Seq<char>, QueryError>(s@),
                Err(e) => fetch_full_spec(self@, sheet_index) == Err::<Seq<char>, QueryError>(e),
            },
    {
        match self.get(sheet_index) {
            Some(d) => Ok(d.text.clone()),
            None => Err(QueryError::SheetNotFound(sheet_index)),
        }
    }

    /// Lists every sheet, best-effort: each sheet that parses contributes
    /// its display header and outline entries; one that fails to parse is
    /// skipped, and the listing goes on.
    pub fn list_sheets(&self) -> (r: Vec<(String, Vec<String>)>)
        ensures
            r.deep_view() == listing_spec(self@, 0),
    {
        let n = self.len();
        let mut r: Vec<(String, Vec<String>)> = Vec::new();
        let mut i: usize = 0;
        proof {
            assert(r.deep_view() =~= Seq::<(Seq<char>, Seq<Seq<char>>)>::empty());
            assert(listing_spec(self@, 0) =~= r.deep_view() + listing_spec(self@, 0));
        }
        while i < n
            invariant
                n == self@.len(),
                i <= n,
                listing_spec(self@, 0) == r.deep_view() + listing_spec(self@, i as int),
            decreases n - i,
        {
            let ghost views = r.deep_view();
            match self.outline(i) {
                Ok(p) => {
                    proof {
                        let entry = (p.0@, p.1.deep_view());
                        assert(listing_spec(self@, i as int) == seq![entry] + listing_spec(
                            self@,
                            i + 1,
                        ));
                    }
                    r.push(p);
                    proof {
                        assert(r.deep_view() =~= views.push((p.0@, p.1.deep_view())));
                        assert(views + (seq![(p.0@, p.1.deep_view())] + listing_spec(
                            self@,
                            i + 1,
                        )) =~= r.deep_view() + listing_spec(self@, i + 1));
                    }
                },
                Err(e) => {
                    proof {
                        assert(e is Parse);
                        assert(listing_spec(self@, i as int) == listing_spec(self@, i + 1));
                    }
                },
            }
            i = i + 1;
        }
        proof {
            assert(listing_spec(self@, n as int) =~= Seq::<(Seq<char>, Seq<Seq<char>>)>::empty());
            assert(r.deep_view() + listing_spec(self@, n as int) =~= r.deep_view());
        }
        r
    }
}

} // verus!
