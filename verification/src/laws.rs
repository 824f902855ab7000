//! Laws of the segmentation engine, stated once for every input and proved.

use vstd::prelude::*;

use crate::facade::{outline_spec, QueryError};
use crate::index::DocumentView;
use crate::lines::{lemma_lines_newline_free, lemma_lines_single, lemma_lines_unfold, lines_spec,
    newline_free, strip_cr};
use crate::parser::{build_from, create_section_res, first_sep, is_header_spec, is_start_spec,
    join_lines_spec, lemma_starts_from_props, parse_spec, section_content_spec, section_end,
    section_starts_spec, title_spec, trim_markers_spec, ParseError};
use crate::section::SectionView;

verus! {

/// Segmenting the same text twice yields identical section lists: the result
/// is a pure function of the text, with no hidden state.
pub proof fn lemma_segmentation_deterministic(t1: Seq<char>, t2: Seq<char>)
    requires
        t1 == t2,
    ensures
        parse_spec(t1) == parse_spec(t2),
{
}

/// A text with no divider-plus-header pair yields an empty section list, not
/// an error.
pub proof fn lemma_no_starts_no_sections(t: Seq<char>)
    requires
        forall|i: int| !is_start_spec(lines_spec(t), i),
    ensures
        parse_spec(t) == Ok::<Seq<SectionView>, ParseError>(Seq::empty()),
{
    let lines = lines_spec(t);
    let s = section_starts_spec(lines);
    lemma_starts_from_props(lines, 0);
    if s.len() > 0 {
        assert(is_start_spec(lines, s[0]));
    }
    assert(s.len() == 0);
}

/// Outlining at a position past the end of the document list fails with
/// `SheetNotFound`, whatever the documents hold: an index is out of range
/// for every list shorter than it.
pub proof fn lemma_outline_sheet_bounds(docs: Seq<DocumentView>, index: usize)
    requires
        docs.len() <= index,
    ensures
        outline_spec(docs, index) == Err::<(Seq<char>, Seq<Seq<char>>), QueryError>(
            QueryError::SheetNotFound(index),
        ),
{
}

/// Every section of a successful segmentation carries a non-empty title: a
/// line is only a header when something follows its first `". "`.
pub proof fn lemma_titles_nonempty(t: Seq<char>)
    requires
        parse_spec(t) is Ok,
    ensures
        forall|k: int|
            0 <= k < parse_spec(t)->Ok_0.len() ==> #[trigger] parse_spec(
                t,
            )->Ok_0[k].title.len() > 0,
{
    let lines = lines_spec(t);
    lemma_build_titles_nonempty(lines, section_starts_spec(lines), 0);
}

proof fn lemma_build_titles_nonempty(lines: Seq<Seq<char>>, starts: Seq<int>, k: int)
    requires
        build_from(lines, starts, k) is Ok,
    ensures
        forall|m: int|
            0 <= m < build_from(lines, starts, k)->Ok_0.len() ==> #[trigger] build_from(
                lines,
                starts,
                k,
            )->Ok_0[m].title.len() > 0,
    decreases starts.len() - k,
{
    if k < starts.len() {
        lemma_build_titles_nonempty(lines, starts, k + 1);
        let res = create_section_res(lines, starts[k], section_end(lines, starts, k));
        let sec = res->Ok_0;
        let header = lines[starts[k] + 1];
        assert(is_header_spec(header));
        let trimmed = trim_markers_spec(header);
        assert(sec.title == title_spec(header));
        assert(sec.title == trimmed.skip(first_sep(trimmed) + 2));
        assert(sec.title.len() > 0);
        let ss = build_from(lines, starts, k)->Ok_0;
        let rest = build_from(lines, starts, k + 1)->Ok_0;
        assert(ss == seq![sec] + rest);
        assert forall|m: int| 0 <= m < ss.len() implies #[trigger] ss[m].title.len() > 0 by {
            if m > 0 {
                assert(ss[m] == rest[m - 1]);
            }
        }
    }
}

/// The lines of a list of sections: each section's content re-split into
/// lines, concatenated in section order.
pub open spec fn sections_lines(ss: Seq<SectionView>) -> Seq<Seq<char>>
    decreases ss.len(),
{
    if ss.len() == 0 {
        Seq::empty()
    } else {
        lines_spec(ss[0].content) + sections_lines(ss.drop_first())
    }
}

/// A section's span survives reconstruction: re-splitting its rejoined lines
/// gives the same lines back. A line that the rejoined content follows with
/// a newline must not end in a carriage return (the re-split would take it
/// for a `"\r\n"` ending and drop it); the rejoined content of a span of
/// exactly three lines ends in a newline, so there this also holds of the
/// last line, while a longer span must instead not end with an empty line
/// (its own final newline would absorb it).
pub open spec fn span_survives_resplit(lines: Seq<Seq<char>>, start: int, end: int) -> bool {
    (forall|j: int| start <= j < end - 1 ==> strip_cr(#[trigger] lines[j]) == lines[j]) && (if end
        == start + 3 {
        strip_cr(lines[end - 1]) == lines[end - 1]
    } else {
        lines[end - 1].len() > 0
    })
}

/// Joining newline-free lines and re-splitting gives the lines back, as long
/// as none but the last ends in a carriage return and the last is nonempty.
proof fn lemma_lines_of_join(ls: Seq<Seq<char>>)
    requires
        ls.len() > 0,
        forall|i: int| 0 <= i < ls.len() ==> #[trigger] newline_free(ls[i]),
        forall|i: int| 0 <= i < ls.len() - 1 ==> strip_cr(#[trigger] ls[i]) == ls[i],
        ls.last().len() > 0,
    ensures
        lines_spec(join_lines_spec(ls)) == ls,
    decreases ls.len(),
{
    if ls.len() == 1 {
        lemma_lines_single(ls[0]);
        assert(lines_spec(join_lines_spec(ls)) =~= ls);
    } else {
        let rest = ls.drop_first();
        assert(forall|i: int| 0 <= i < rest.len() ==> rest[i] == ls[i + 1]);
        lemma_lines_of_join(rest);
        lemma_lines_unfold(ls[0], join_lines_spec(rest));
        assert(strip_cr(ls[0]) == ls[0]);
        assert(lines_spec(join_lines_spec(ls)) =~= ls);
    }
}

/// Re-splitting one section's reconstructed content yields exactly the lines
/// of its span.
proof fn lemma_content_lines(lines: Seq<Seq<char>>, start: int, end: int)
    requires
        0 <= start,
        start + 3 <= end <= lines.len(),
        forall|i: int| 0 <= i < lines.len() ==> #[trigger] newline_free(lines[i]),
        span_survives_resplit(lines, start, end),
    ensures
        lines_spec(section_content_spec(lines, start, end)) == lines.subrange(start, end),
{
    let sub = lines.subrange(start + 3, end);
    let joined = join_lines_spec(sub);
    let x2 = lines[start + 2] + seq!['\n'] + joined;
    let x1 = lines[start + 1] + seq!['\n'] + x2;
    let x0 = lines[start] + seq!['\n'] + x1;
    assert(section_content_spec(lines, start, end) =~= x0);
    assert(strip_cr(lines[start]) == lines[start]);
    assert(strip_cr(lines[start + 1]) == lines[start + 1]);
    if end == start + 3 {
        assert(sub =~= Seq::<Seq<char>>::empty());
        assert(joined =~= Seq::<char>::empty());
        lemma_lines_unfold(lines[start + 2], joined);
        assert(strip_cr(lines[start + 2]) == lines[start + 2]);
        assert(lines_spec(x2) =~= seq![lines[start + 2]]);
    } else {
        assert(forall|i: int| 0 <= i < sub.len() ==> sub[i] == lines[start + 3 + i]);
        assert(sub.last() == lines[end - 1]);
        assert(strip_cr(lines[start + 2]) == lines[start + 2]);
        lemma_lines_of_join(sub);
        lemma_lines_unfold(lines[start + 2], joined);
        assert(lines_spec(x2) =~= seq![lines[start + 2]] + sub);
    }
    lemma_lines_unfold(lines[start + 1], x2);
    lemma_lines_unfold(lines[start], x1);
    assert(lines_spec(x0) =~= lines.subrange(start, end));
}

/// Coverage from position `k` of the start list onward: the remaining
/// sections' lines are exactly the text's lines from start `k` to the end.
proof fn lemma_cover_from(lines: Seq<Seq<char>>, starts: Seq<int>, k: int)
    requires
        0 <= k < starts.len(),
        forall|m: int| 0 <= m < starts.len() ==> 0 <= #[trigger] starts[m] < lines.len(),
        forall|m: int| 0 <= m < starts.len() - 1 ==> #[trigger] starts[m] < starts[m + 1],
        build_from(lines, starts, k) is Ok,
        forall|i: int| 0 <= i < lines.len() ==> #[trigger] newline_free(lines[i]),
        forall|m: int|
            k <= m < starts.len() ==> span_survives_resplit(
                lines,
                #[trigger] starts[m],
                section_end(lines, starts, m),
            ),
    ensures
        sections_lines(build_from(lines, starts, k)->Ok_0) == lines.subrange(
            starts[k],
            lines.len() as int,
        ),
    decreases starts.len() - k,
{
    let end = section_end(lines, starts, k);
    let res = create_section_res(lines, starts[k], end);
    assert(res is Ok);
    let sec = res->Ok_0;
    assert(starts[k] + 3 <= end <= lines.len());
    assert(span_survives_resplit(lines, starts[k], end));
    lemma_content_lines(lines, starts[k], end);
    let ss = build_from(lines, starts, k)->Ok_0;
    let rest = build_from(lines, starts, k + 1)->Ok_0;
    assert(ss == seq![sec] + rest);
    assert(ss[0] == sec);
    assert(ss.drop_first() =~= rest);
    if k + 1 < starts.len() {
        lemma_cover_from(lines, starts, k + 1);
        assert(sections_lines(ss) =~= lines.subrange(starts[k], end) + lines.subrange(
            end,
            lines.len() as int,
        ));
        assert(lines.subrange(starts[k], end) + lines.subrange(end, lines.len() as int)
            =~= lines.subrange(starts[k], lines.len() as int));
    } else {
        assert(rest =~= Seq::<SectionView>::empty());
        assert(sections_lines(rest) =~= Seq::<Seq<char>>::empty());
        assert(end == lines.len());
        assert(sections_lines(ss) =~= lines.subrange(starts[k], lines.len() as int));
    }
}

/// Coverage: when a text has at least one section start and segmenting
/// succeeds, the sections' contents, re-split into lines and concatenated in
/// order, are exactly the text's lines from the first divider to the end of
/// the text — in original order, with no gap and no duplicate.
///
/// Two families of inputs are left out, on which re-splitting a rejoined
/// span cannot give its lines back (in `span_survives_resplit`): a span of
/// more than three lines ending in an empty line, which the rejoined
/// content's final newline absorbs; and a span line that ends in a carriage
/// return where the rejoined content follows it with a newline, so that the
/// re-split takes the pair for a `"\r\n"` ending and drops the carriage
/// return.
pub proof fn lemma_sections_cover_text(t: Seq<char>)
    requires
        parse_spec(t) is Ok,
        section_starts_spec(lines_spec(t)).len() > 0,
        forall|k: int|
            0 <= k < section_starts_spec(lines_spec(t)).len() ==> span_survives_resplit(
                lines_spec(t),
                #[trigger] section_starts_spec(lines_spec(t))[k],
                section_end(lines_spec(t), section_starts_spec(lines_spec(t)), k),
            ),
    ensures
        sections_lines(parse_spec(t)->Ok_0) == lines_spec(t).skip(
            section_starts_spec(lines_spec(t))[0],
        ),
{
    let lines = lines_spec(t);
    let starts = section_starts_spec(lines);
    lemma_starts_from_props(lines, 0);
    lemma_lines_newline_free(t);
    lemma_cover_from(lines, starts, 0);
    assert(lines.subrange(starts[0], lines.len() as int) =~= lines.skip(starts[0]));
}

} // verus!
