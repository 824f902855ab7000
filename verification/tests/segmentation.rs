//! Tests of the segmentation engine: divider and header detection, title
//! extraction, section reconstruction, and the failure cases.

use rust_cheat::parser::{CheatSheet, ParseError};

#[test]
fn title_extraction_hash_style() {
    let cs = CheatSheet::parse("# ----\n# 3. Functions\nbody").unwrap();
    assert_eq!(cs.sections.len(), 1);
    assert_eq!(cs.sections[0].title, "Functions");
}

#[test]
fn title_extraction_slash_style() {
    let cs = CheatSheet::parse("// ----\n// 10. String Manipulation\nbody").unwrap();
    assert_eq!(cs.sections.len(), 1);
    assert_eq!(cs.sections[0].title, "String Manipulation");
}

#[test]
fn two_section_document_end_to_end() {
    let text = "# ----\n# 1. Intro\nline\nbody\n# ----\n# 2. Outro\nline\nbody";
    let cs = CheatSheet::parse(text).unwrap();
    assert_eq!(cs.sections.len(), 2);
    assert_eq!(cs.sections[0].title, "Intro");
    assert_eq!(cs.sections[1].title, "Outro");
    assert_eq!(cs.sections[0].content, "# ----\n# 1. Intro\nline\nbody");
    assert_eq!(cs.sections[1].content, "# ----\n# 2. Outro\nline\nbody");
}

#[test]
fn no_sections_is_empty_not_error() {
    let cs = CheatSheet::parse("hello\nworld\nno markers here").unwrap();
    assert_eq!(cs.sections.len(), 0);
}

#[test]
fn empty_document_has_no_sections() {
    let cs = CheatSheet::parse("").unwrap();
    assert_eq!(cs.sections.len(), 0);
}

#[test]
fn divider_without_header_is_no_start() {
    let cs = CheatSheet::parse("# ----\nplain line\nbody").unwrap();
    assert_eq!(cs.sections.len(), 0);
}

#[test]
fn header_without_divider_is_no_start() {
    let cs = CheatSheet::parse("plain\n# 1. Title\nbody").unwrap();
    assert_eq!(cs.sections.len(), 0);
}

#[test]
fn segmentation_is_idempotent() {
    let text = "preamble\n# ----\n# 1. One\na\nb\n// ----\n// 2. Two\nc";
    let first = CheatSheet::parse(text).unwrap();
    let second = CheatSheet::parse(text).unwrap();
    assert_eq!(first.sections.len(), second.sections.len());
    for (a, b) in first.sections.iter().zip(second.sections.iter()) {
        assert_eq!(a.title, b.title);
        assert_eq!(a.content, b.content);
    }
}

#[test]
fn sections_cover_text_from_first_divider() {
    let text = "dropped preamble\n# ----\n# 1. One\na\nb\n// ----\n// 2. Two\nc\nd";
    let cs = CheatSheet::parse(text).unwrap();
    let mut covered: Vec<&str> = Vec::new();
    for sec in cs.sections.iter() {
        covered.extend(sec.content.lines());
    }
    let original: Vec<&str> = text.lines().skip(1).collect();
    assert_eq!(covered, original);
}

#[test]
fn preamble_lines_are_dropped() {
    let text = "title block\nmore preamble\n# ----\n# 1. Only\nbody";
    let cs = CheatSheet::parse(text).unwrap();
    assert_eq!(cs.sections.len(), 1);
    assert_eq!(cs.sections[0].content, "# ----\n# 1. Only\nbody\n");
}

#[test]
fn three_line_section_content_ends_with_newline() {
    let cs = CheatSheet::parse("# ----\n# 1. T\nlast").unwrap();
    assert_eq!(cs.sections[0].content, "# ----\n# 1. T\nlast\n");
}

#[test]
fn section_without_body_line_fails() {
    let r = CheatSheet::parse("# ----\n# 1. T");
    assert_eq!(r.err().unwrap(), ParseError::MissingBody);
}

#[test]
fn trailing_newline_does_not_add_a_line() {
    let with = CheatSheet::parse("# ----\n# 1. T\nbody\n").unwrap();
    let without = CheatSheet::parse("# ----\n# 1. T\nbody").unwrap();
    assert_eq!(with.sections[0].content, without.sections[0].content);
}

#[test]
fn divider_needs_four_dashes() {
    let cs = CheatSheet::parse("# ---\n# 1. T\nbody").unwrap();
    assert_eq!(cs.sections.len(), 0);
    let cs = CheatSheet::parse("# -----\n# 1. T\nbody").unwrap();
    assert_eq!(cs.sections.len(), 1);
}

#[test]
fn header_separator_needs_dot_space() {
    let cs = CheatSheet::parse("# ----\n# 1.Title\nbody").unwrap();
    assert_eq!(cs.sections.len(), 0);
}

#[test]
fn create_section_missing_title() {
    let lines = vec!["# ----"];
    let r = CheatSheet::create_section(&lines, 0, 1);
    assert_eq!(r.err().unwrap(), ParseError::MissingTitle);
}

#[test]
fn create_section_missing_separator() {
    let lines = vec!["# ----", "# no separator", "body"];
    let r = CheatSheet::create_section(&lines, 0, 3);
    assert_eq!(r.err().unwrap(), ParseError::MissingSeparator);
}

#[test]
fn create_section_missing_body() {
    let lines = vec!["# ----", "# 1. T"];
    let r = CheatSheet::create_section(&lines, 0, 2);
    assert_eq!(r.err().unwrap(), ParseError::MissingBody);
}

#[test]
fn find_section_starts_two_line_window() {
    let lines = vec!["x", "# ----", "# 1. A", "b", "// ----", "// 2. B", "c"];
    let starts = CheatSheet::find_section_starts(&lines);
    assert_eq!(starts, vec![1, 4]);
}

#[test]
fn title_keeps_text_after_first_separator_only() {
    let cs = CheatSheet::parse("# ----\n# 2. Mod. Two\nbody").unwrap();
    assert_eq!(cs.sections[0].title, "Mod. Two");
}

#[test]
fn header_needs_no_comment_prefix() {
    let cs = CheatSheet::parse("# ----\n1. Bare Header\nbody").unwrap();
    assert_eq!(cs.sections.len(), 1);
    assert_eq!(cs.sections[0].title, "Bare Header");
}

#[test]
fn empty_title_is_no_header() {
    let cs = CheatSheet::parse("# ----\n# 1. \nbody").unwrap();
    assert_eq!(cs.sections.len(), 0);
}

#[test]
fn create_section_rejects_empty_title() {
    let lines = vec!["# ----", "# 1. ", "body"];
    let r = CheatSheet::create_section(&lines, 0, 3);
    assert_eq!(r.err().unwrap(), ParseError::MissingSeparator);
}

#[test]
fn titles_are_never_empty() {
    let cs = CheatSheet::parse("# ----\n# 1. A\nx\n# ----\n# 2. \ny\n# ----\n# 3. B\nz").unwrap();
    for sec in cs.sections.iter() {
        assert!(!sec.title.is_empty());
    }
    let titles: Vec<&str> = cs.sections.iter().map(|s| s.title.as_str()).collect();
    assert_eq!(titles, vec!["A", "B"]);
}

#[test]
fn crlf_line_endings_are_normalized() {
    let cs = CheatSheet::parse("# ----\r\n# 1. T\r\nline\r\nbody").unwrap();
    assert_eq!(cs.sections.len(), 1);
    assert_eq!(cs.sections[0].title, "T");
    assert_eq!(cs.sections[0].content, "# ----\n# 1. T\nline\nbody");
}

#[test]
fn lone_carriage_return_on_final_line_is_kept() {
    let cs = CheatSheet::parse("# ----\n# 1. T\nbody\r").unwrap();
    assert_eq!(cs.sections[0].content, "# ----\n# 1. T\nbody\r\n");
}
