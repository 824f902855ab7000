//! The segmentation engine: recovering titled, contiguous sections from a
//! flat text by positional convention alone.
//!
//! A line is a *divider* when it starts with `# ----` or `// ----`. The line
//! right after a divider is a *header* when, once its leading `#`, `/` and
//! space characters are stripped, it holds the separator `". "` with a
//! title after it; the text after the first separator is the section's
//! title, and it is never empty. A section runs from its divider line up to
//! the line before the next section's divider, or to the end of the text.

use vstd::prelude::*;

use crate::lines::{lines_spec, split_lines};
use crate::section::{Section, SectionView};

verus! {

/// A sheet could not be segmented into well-formed sections.
#[derive(Clone, Copy, Debug, PartialEq, Eq, Structural)]
pub enum ParseError {
    /// A section's header line lies past the end of the text.
    MissingTitle,
    /// A line classified as a header holds no `". "` separator followed by
    /// a title.
    MissingSeparator,
    /// A section ends before the one line its header must be followed by.
    MissingBody,
}

/// Characters stripped from the front of a header line before the separator
/// is looked for.
pub open spec fn is_marker_char(c: char) -> bool {
    c == '#' || c == '/' || c == ' '
}

/// `l` with its leading comment-marker characters removed.
pub open spec fn trim_markers_spec(l: Seq<char>) -> Seq<char>
    decreases l.len(),
{
    if l.len() > 0 && is_marker_char(l[0]) {
        trim_markers_spec(l.drop_first())
    } else {
        l
    }
}

/// The separator `". "` stands at position `i` of `l`.
pub open spec fn sep_at(l: Seq<char>, i: int) -> bool {
    0 <= i && i + 1 < l.len() && l[i] == '.' && l[i + 1] == ' '
}

/// Position of the first `". "` in `l`, or `-1` when there is none.
pub open spec fn first_sep(l: Seq<char>) -> int
    decreases l.len(),
{
    if l.len() < 2 {
        -1
    } else if l[0] == '.' && l[1] == ' ' {
        0
    } else {
        let r = first_sep(l.drop_first());
        if r < 0 {
            -1
        } else {
            1 + r
        }
    }
}

pub proof fn lemma_first_sep(l: Seq<char>)
    ensures
        first_sep(l) >= 0 ==> sep_at(l, first_sep(l)) && (forall|k: int|
            0 <= k < first_sep(l) ==> !sep_at(l, k)),
        first_sep(l) < 0 ==> forall|k: int| !sep_at(l, k),
    decreases l.len(),
{
    if l.len() >= 2 && !(l[0] == '.' && l[1] == ' ') {
        let rest = l.drop_first();
        lemma_first_sep(rest);
        assert forall|k: int| sep_at(l, k) && k > 0 implies sep_at(rest, k - 1) by {
            assert(rest[k - 1] == l[k]);
            assert(rest[k] == l[k + 1]);
        }
        assert forall|k: int| sep_at(rest, k) implies sep_at(l, k + 1) by {
            assert(rest[k] == l[k + 1]);
            assert(rest[k + 1] == l[k + 2]);
        }
        let r = first_sep(rest);
        if r >= 0 {
            assert(sep_at(l, 1 + r));
            assert forall|k: int| 0 <= k < 1 + r implies !sep_at(l, k) by {
                if k > 0 {
                    assert(!sep_at(rest, k - 1));
                }
            }
        } else {
            assert forall|k: int| !sep_at(l, k) by {
                if k > 0 {
                    assert(!sep_at(rest, k - 1));
                }
            }
        }
    }
}

/// A divider: a `#`- or `//`-style comment prefix followed by at least four
/// dashes.
pub open spec fn is_divider_spec(l: Seq<char>) -> bool {
    (l.len() >= 6 && l[0] == '#' && l[1] == ' ' && l[2] == '-' && l[3] == '-' && l[4] == '-'
        && l[5] == '-') || (l.len() >= 7 && l[0] == '/' && l[1] == '/' && l[2] == ' ' && l[3]
        == '-' && l[4] == '-' && l[5] == '-' && l[6] == '-')
}

/// A header: a line that, once its leading marker characters are stripped,
/// holds a `". "` separator with at least one character after it — an index,
/// the separator, then a non-empty title.
pub open spec fn is_header_spec(l: Seq<char>) -> bool {
    let t = trim_markers_spec(l);
    first_sep(t) >= 0 && first_sep(t) + 2 < t.len()
}

/// The title carried by header line `l`: everything after the first `". "`
/// of the stripped line.
pub open spec fn title_spec(l: Seq<char>) -> Seq<char> {
    let t = trim_markers_spec(l);
    t.skip(first_sep(t) + 2)
}

/// Line `i` starts a section: it is a divider and line `i + 1` is a header.
pub open spec fn is_start_spec(lines: Seq<Seq<char>>, i: int) -> bool {
    0 <= i && i + 1 < lines.len() && is_divider_spec(lines[i]) && is_header_spec(lines[i + 1])
}

/// The section-start positions at or after line `i`, in ascending order.
pub open spec fn starts_from(lines: Seq<Seq<char>>, i: int) -> Seq<int>
    decreases lines.len() - i,
{
    if i + 1 >= lines.len() {
        Seq::empty()
    } else if is_start_spec(lines, i) {
        seq![i] + starts_from(lines, i + 1)
    } else {
        starts_from(lines, i + 1)
    }
}

/// All section-start positions of the document, in ascending order.
pub open spec fn section_starts_spec(lines: Seq<Seq<char>>) -> Seq<int> {
    starts_from(lines, 0)
}

pub proof fn lemma_starts_from_props(lines: Seq<Seq<char>>, i: int)
    ensures
        forall|k: int|
            0 <= k < starts_from(lines, i).len() ==> is_start_spec(
                lines,
                #[trigger] starts_from(lines, i)[k],
            ) && i <= starts_from(lines, i)[k] && starts_from(lines, i)[k] + 1 < lines.len(),
        forall|k: int|
            0 <= k < starts_from(lines, i).len() - 1 ==> #[trigger] starts_from(lines, i)[k]
                < starts_from(lines, i)[k + 1],
    decreases lines.len() - i,
{
    if i + 1 < lines.len() {
        lemma_starts_from_props(lines, i + 1);
        let s = starts_from(lines, i);
        let rest = starts_from(lines, i + 1);
        if is_start_spec(lines, i) {
            assert(s == seq![i] + rest);
            assert(s[0] == i);
            assert forall|k: int| 0 < k < s.len() implies is_start_spec(lines, #[trigger] s[k])
                && i <= s[k] && s[k] + 1 < lines.len() by {
                assert(s[k] == rest[k - 1]);
            }
            assert forall|k: int| 0 <= k < s.len() - 1 implies #[trigger] s[k] < s[k + 1] by {
                if k == 0 {
                    assert(s[1] == rest[0]);
                } else {
                    assert(s[k] == rest[k - 1]);
                    assert(s[k + 1] == rest[k]);
                }
            }
        } else {
            assert(s == rest);
        }
    }
}

/// `ls` joined with single newlines between the pieces.
pub open spec fn join_lines_spec(ls: Seq<Seq<char>>) -> Seq<char>
    decreases ls.len(),
{
    if ls.len() == 0 {
        Seq::empty()
    } else if ls.len() == 1 {
        ls[0]
    } else {
        ls[0] + seq!['\n'] + join_lines_spec(ls.drop_first())
    }
}

pub proof fn lemma_join_lines_push(ls: Seq<Seq<char>>, x: Seq<char>)
    ensures
        join_lines_spec(ls.push(x)) == if ls.len() == 0 {
            x
        } else {
            join_lines_spec(ls) + seq!['\n'] + x
        },
    decreases ls.len(),
{
    if ls.len() == 0 {
        assert(ls.push(x)[0] =~= x);
    } else {
        lemma_join_lines_push(ls.drop_first(), x);
        assert(ls.push(x).drop_first() =~= ls.drop_first().push(x));
        if ls.len() == 1 {
            assert(join_lines_spec(ls) =~= ls[0]);
        }
        assert(ls.push(x)[0] == ls[0]);
    }
}

/// The reconstructed content of the section spanning lines `start` to `end`:
/// its divider, header and first body line, then the remaining lines, all
/// joined by newlines.
pub open spec fn section_content_spec(lines: Seq<Seq<char>>, start: int, end: int) -> Seq<char> {
    lines[start] + seq!['\n'] + lines[start + 1] + seq!['\n'] + lines[start + 2] + seq!['\n']
        + join_lines_spec(lines.subrange(start + 3, end))
}

/// What extracting the section spanning lines `start` to `end` yields: its
/// record, or the first failure met.
pub open spec fn create_section_res(lines: Seq<Seq<char>>, start: int, end: int) -> Result<
    SectionView,
    ParseError,
> {
    if start + 1 >= lines.len() {
        Err(ParseError::MissingTitle)
    } else if !is_header_spec(lines[start + 1]) {
        Err(ParseError::MissingSeparator)
    } else if end <= start + 2 {
        Err(ParseError::MissingBody)
    } else {
        Ok(
            SectionView {
                title: title_spec(lines[start + 1]),
                content: section_content_spec(lines, start, end),
            },
        )
    }
}

/// Where the section at position `k` of `starts` ends: at the next start, or
/// at the end of the text.
pub open spec fn section_end(lines: Seq<Seq<char>>, starts: Seq<int>, k: int) -> int {
    if k + 1 < starts.len() {
        starts[k + 1]
    } else {
        lines.len() as int
    }
}

/// The sections built from the starts at positions `k` and later, or the
/// first failure met.
pub open spec fn build_from(lines: Seq<Seq<char>>, starts: Seq<int>, k: int) -> Result<
    Seq<SectionView>,
    ParseError,
> decreases starts.len() - k,
{
    if k >= starts.len() {
        Ok(Seq::empty())
    } else {
        match create_section_res(lines, starts[k], section_end(lines, starts, k)) {
            Err(e) => Err(e),
            Ok(s) => match build_from(lines, starts, k + 1) {
                Err(e) => Err(e),
                Ok(rest) => Ok(seq![s] + rest),
            },
        }
    }
}

/// The whole segmentation: the ordered sections of `t`, or the first failure
/// met. Re-parsing equal texts always yields equal results: this is a pure
/// function of the text.
pub open spec fn parse_spec(t: Seq<char>) -> Result<Seq<SectionView>, ParseError> {
    let lines = lines_spec(t);
    build_from(lines, section_starts_spec(lines), 0)
}

/// A sheet segmented into its ordered sections.
pub struct CheatSheet {
    pub sections: Vec<Section>,
}

impl View for CheatSheet {
    type V = Seq<SectionView>;

    open spec fn view(&self) -> Seq<SectionView> {
        self.sections.deep_view()
    }
}

pub fn is_marker(c: char) -> (r: bool)
    ensures
        r == is_marker_char(c),
{
    c == '#' || c == '/' || c == ' '
}

proof fn lemma_trim_markers_skip(l: Seq<char>, k: int)
    requires
        0 <= k <= l.len(),
        forall|j: int| 0 <= j < k ==> is_marker_char(l[j]),
        k == l.len() || !is_marker_char(l[k]),
    ensures
        trim_markers_spec(l) == l.skip(k),
    decreases k,
{
    if k == 0 {
        assert(l.skip(0) =~= l);
    } else {
        let rest = l.drop_first();
        assert(is_marker_char(l[0]));
        assert forall|j: int| 0 <= j < k - 1 implies is_marker_char(rest[j]) by {
            assert(rest[j] == l[j + 1]);
        }
        assert(k - 1 == rest.len() || !is_marker_char(rest[k - 1]));
        lemma_trim_markers_skip(rest, k - 1);
        assert(rest.skip(k - 1) =~= l.skip(k));
    }
}

/// `line` with its leading `#`, `/` and space characters removed.
pub fn trim_markers<'a>(line: &'a str) -> (r: &'a str)
    ensures
        r@ == trim_markers_spec(line@),
{
    let n = line.unicode_len();
    let mut k: usize = 0;
    while k < n && is_marker(line.get_char(k))
        invariant
            n == line@.len(),
            k <= n,
            forall|j: int| 0 <= j < k ==> is_marker_char(line@[j]),
        decreases n - k,
    {
        k = k + 1;
    }
    proof {
        lemma_trim_markers_skip(line@, k as int);
    }
    line.substring_char(k, n)
}

/// Position of the first `". "` in `line`, or `None` when there is none.
pub fn find_separator(line: &str) -> (r: Option<usize>)
    ensures
        match r {
            Some(i) => first_sep(line@) == i as int,
            None => first_sep(line@) < 0,
        },
{
    proof {
        lemma_first_sep(line@);
    }
    let n = line.unicode_len();
    if n < 2 {
        return None;
    }
    let mut i: usize = 0;
    while i + 1 < n
        invariant
            n == line@.len(),
            i + 1 <= n,
            forall|k: int| 0 <= k < i ==> !sep_at(line@, k),
        decreases n - i,
    {
        if line.get_char(i) == '.' && line.get_char(i + 1) == ' ' {
            proof {
                lemma_first_sep(line@);
                assert(sep_at(line@, i as int));
            }
            return Some(i);
        }
        i = i + 1;
    }
    assert(forall|k: int| !sep_at(line@, k));
    None
}

/// The title carried by a header line, or `None` when the stripped line
/// holds no `". "` separator or nothing follows the first one.
pub fn extract_title<'a>(header: &'a str) -> (r: Option<&'a str>)
    ensures
        match r {
            Some(t) => is_header_spec(header@) && t@ == title_spec(header@) && t@.len() > 0,
            None => !is_header_spec(header@),
        },
{
    let trimmed = trim_markers(header);
    proof {
        lemma_first_sep(trimmed@);
    }
    let n = trimmed.unicode_len();
    match find_separator(trimmed) {
        Some(i) => {
            assert(sep_at(trimmed@, i as int));
            if i + 2 >= n {
                return None;
            }
            Some(trimmed.substring_char(i + 2, n))
        },
        None => None,
    }
}

/// Whether `line` is a divider.
pub fn is_divider(line: &str) -> (r: bool)
    ensures
        r == is_divider_spec(line@),
{
    let n = line.unicode_len();
    (n >= 6 && line.get_char(0) == '#' && line.get_char(1) == ' ' && line.get_char(2) == '-'
        && line.get_char(3) == '-' && line.get_char(4) == '-' && line.get_char(5) == '-') || (n >= 7
        && line.get_char(0) == '/' && line.get_char(1) == '/' && line.get_char(2) == ' '
        && line.get_char(3) == '-' && line.get_char(4) == '-' && line.get_char(5) == '-'
        && line.get_char(6) == '-')
}

/// Whether `line` is a header.
pub fn is_header(line: &str) -> (r: bool)
    ensures
        r == is_header_spec(line@),
{
    extract_title(line).is_some()
}

impl CheatSheet {
    /// The positions of all divider lines immediately followed by a header
    /// line, in ascending order: the two-line sliding window over the text.
    pub fn find_section_starts(lines: &Vec<&str>) -> (r: Vec<usize>)
        ensures
            r@.map_values(|u: usize| u as int) == section_starts_spec(lines.deep_view()),
    {
        let ghost l = lines.deep_view();
        let mut r: Vec<usize> = Vec::new();
        let mut i: usize = 0;
        proof {
            assert(r@.map_values(|u: usize| u as int) =~= Seq::<int>::empty());
            assert(section_starts_spec(l) =~= r@.map_values(|u: usize| u as int) + starts_from(
                l,
                0,
            ));
        }
        let n = lines.len();
        while i < n && i + 1 < n
            invariant
                l == lines.deep_view(),
                n == lines@.len(),
                i <= lines@.len(),
                section_starts_spec(l) == r@.map_values(|u: usize| u as int) + starts_from(
                    l,
                    i as int,
                ),
            decreases lines@.len() - i,
        {
            let ghost prev = r@.map_values(|u: usize| u as int);
            assert(l[i as int] == lines@[i as int]@);
            assert(l[i + 1] == lines@[i + 1]@);
            if is_divider(lines[i]) && is_header(lines[i + 1]) {
                assert(is_start_spec(l, i as int));
                r.push(i);
                proof {
                    assert(r@.map_values(|u: usize| u as int) =~= prev.push(i as int));
                    assert(prev.push(i as int) + starts_from(l, i + 1) =~= prev + (seq![i as int]
                        + starts_from(l, i + 1)));
                }
            } else {
                assert(!is_start_spec(l, i as int));
            }
            i = i + 1;
        }
        proof {
            assert(starts_from(l, i as int) =~= Seq::<int>::empty());
            assert(section_starts_spec(l) =~= r@.map_values(|u: usize| u as int));
        }
        r
    }

    /// Extracts one section: the title from the header line, the content as
    /// the span's lines rejoined. Fails when the header line lies past the
    /// end, holds no separator, or is not followed by at least one line
    /// inside the span.
    pub fn create_section(lines: &Vec<&str>, start: usize, end: usize) -> (r: Result<
        Section,
        ParseError,
    >)
        requires
            end <= lines@.len(),
        ensures
            match r {
                Ok(s) => create_section_res(lines.deep_view(), start as int, end as int) == Ok::<
                    SectionView,
                    ParseError,
                >(s@),
                Err(e) => create_section_res(lines.deep_view(), start as int, end as int) == Err::<
                    SectionView,
                    ParseError,
                >(e),
            },
    {
        let ghost l = lines.deep_view();
        if lines.len() == 0 || start >= lines.len() - 1 {
            return Err(ParseError::MissingTitle);
        }
        assert(start + 1 < l.len());
        let title_line = lines[start + 1];
        assert(title_line@ == l[start + 1]);
        let title = match extract_title(title_line) {
            Some(t) => t,
            None => {
                return Err(ParseError::MissingSeparator);
            },
        };
        if end <= start + 2 {
            return Err(ParseError::MissingBody);
        }
        assert(start + 3 <= end);
        let ghost nl = seq!['\n'];
        proof {
            reveal_strlit("\n");
            assert("\n"@ =~= nl);
        }
        let mut content = lines[start].to_owned();
        content.append("\n");
        content.append(title_line);
        content.append("\n");
        content.append(lines[start + 2]);
        content.append("\n");
        let ghost base = l[start as int] + nl + l[start + 1] + nl + l[start + 2] + nl;
        assert(content@ =~= base);
        let mut j: usize = start + 3;
        proof {
            assert(l.subrange(start + 3, j as int) =~= Seq::<Seq<char>>::empty());
            assert(content@ =~= base + join_lines_spec(l.subrange(start + 3, j as int)));
        }
        while j < end
            invariant
                l == lines.deep_view(),
                start + 3 <= j <= end <= l.len(),
                l.len() == lines@.len(),
                content@ == base + join_lines_spec(l.subrange(start + 3, j as int)),
            decreases end - j,
        {
            let ghost sub = l.subrange(start + 3, j as int);
            if j > start + 3 {
                content.append("\n");
            }
            content.append(lines[j]);
            proof {
                reveal_strlit("\n");
                assert("\n"@ =~= seq!['\n']);
                assert(lines@[j as int]@ == l[j as int]);
                lemma_join_lines_push(sub, l[j as int]);
                assert(l.subrange(start + 3, j + 1) =~= sub.push(l[j as int]));
                if j == start + 3 {
                    assert(join_lines_spec(sub) =~= Seq::<char>::empty());
                    assert(content@ =~= base + join_lines_spec(l.subrange(start + 3, j + 1)));
                } else {
                    assert(content@ =~= base + join_lines_spec(l.subrange(start + 3, j + 1)));
                }
            }
            j = j + 1;
        }
        let sec = Section::new(title.to_owned(), content);
        proof {
            assert(sec@.content =~= section_content_spec(l, start as int, end as int));
        }
        Ok(sec)
    }

    /// Turns the ordered start positions into section records, failing on
    /// the first section that cannot be extracted.
    pub fn build_sections(lines: &Vec<&str>, starts: &Vec<usize>) -> (r: Result<
        Vec<Section>,
        ParseError,
    >)
        requires
            forall|k: int| 0 <= k < starts@.len() ==> #[trigger] starts@[k] < lines@.len(),
        ensures
            ({
                let s = starts@.map_values(|u: usize| u as int);
                match r {
                    Ok(v) => build_from(lines.deep_view(), s, 0) == Ok::<
                        Seq<SectionView>,
                        ParseError,
                    >(v.deep_view()),
                    Err(e) => build_from(lines.deep_view(), s, 0) == Err::<
                        Seq<SectionView>,
                        ParseError,
                    >(e),
                }
            }),
    {
        let ghost l = lines.deep_view();
        let ghost s = starts@.map_values(|u: usize| u as int);
        let mut acc: Vec<Section> = Vec::new();
        let mut k: usize = 0;
        proof {
            assert(acc.deep_view() =~= Seq::<SectionView>::empty());
        }
        while k < starts.len()
            invariant
                l == lines.deep_view(),
                s == starts@.map_values(|u: usize| u as int),
                l.len() == lines@.len(),
                forall|m: int| 0 <= m < starts@.len() ==> #[trigger] starts@[m] < lines@.len(),
                k <= starts@.len(),
                build_from(l, s, 0) == match build_from(l, s, k as int) {
                    Ok(rest) => Ok::<Seq<SectionView>, ParseError>(acc.deep_view() + rest),
                    Err(e) => Err::<Seq<SectionView>, ParseError>(e),
                },
            decreases starts@.len() - k,
        {
            let start = starts[k];
            let end = if k + 1 < starts.len() {
                starts[k + 1]
            } else {
                lines.len()
            };
            assert(end as int == section_end(l, s, k as int));
            let ghost prev = acc.deep_view();
            match Self::create_section(lines, start, end) {
                Ok(sec) => {
                    acc.push(sec);
                    proof {
                        assert(acc.deep_view() =~= prev.push(sec@));
                        if build_from(l, s, k + 1) is Ok {
                            let rest = build_from(l, s, k + 1)->Ok_0;
                            assert(prev + (seq![sec@] + rest) =~= prev.push(sec@) + rest);
                        }
                    }
                },
                Err(e) => {
                    return Err(e);
                },
            }
            k = k + 1;
        }
        proof {
            assert(build_from(l, s, k as int) == Ok::<Seq<SectionView>, ParseError>(
                Seq::empty(),
            ));
            assert(acc.deep_view() + Seq::<SectionView>::empty() =~= acc.deep_view());
        }
        Ok(acc)
    }

    /// Segments `content` into its ordered sections. The result is a pure
    /// function of the text: equal inputs yield equal section lists.
    pub fn parse(content: &str) -> (r: Result<CheatSheet, ParseError>)
        ensures
            match r {
                Ok(cs) => parse_spec(content@) == Ok::<Seq<SectionView>, ParseError>(cs@),
                Err(e) => parse_spec(content@) == Err::<Seq<SectionView>, ParseError>(e),
            },
    {
        let lines = split_lines(content);
        let starts = Self::find_section_starts(&lines);
        proof {
            lemma_starts_from_props(lines.deep_view(), 0);
            assert forall|k: int| 0 <= k < starts@.len() implies #[trigger] starts@[k]
                < lines@.len() by {
                let s = starts@.map_values(|u: usize| u as int);
                assert(s[k] == starts@[k] as int);
                assert(s[k] + 1 < lines.deep_view().len());
            }
        }
        match Self::build_sections(&lines, &starts) {
            Ok(sections) => Ok(CheatSheet { sections }),
            Err(e) => Err(e),
        }
    }
}

} // verus!
