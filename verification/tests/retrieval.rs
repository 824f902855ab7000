//! Tests of the index-addressable retrieval: sheet lookup, outlines, section
//! fetches, the error taxonomy, and the argument routing.

use rust_cheat::command::{route, Command};
use rust_cheat::facade::QueryError;
use rust_cheat::index::DocumentIndex;
use rust_cheat::names::format_name;
use rust_cheat::numbers::{format_usize, parse_usize};
use rust_cheat::parser::ParseError;

const SHEET: &str = "# ----\n# 1. Intro\nline\nbody\n# ----\n# 2. Outro\nline\nbody";

fn sample_index() -> DocumentIndex {
    let mut idx = DocumentIndex::new();
    idx.add(String::from("rust_basics"), String::from(SHEET));
    idx
}

#[test]
fn fetch_zero_returns_full_raw_content() {
    let idx = sample_index();
    assert_eq!(idx.fetch_section(0, "0").unwrap(), SHEET);
}

#[test]
fn fetch_one_returns_first_section_only() {
    let idx = sample_index();
    assert_eq!(idx.fetch_section(0, "1").unwrap(), "# ----\n# 1. Intro\nline\nbody");
}

#[test]
fn fetch_second_section() {
    let idx = sample_index();
    assert_eq!(idx.fetch_section(0, "2").unwrap(), "# ----\n# 2. Outro\nline\nbody");
}

#[test]
fn fetch_out_of_range_section_fails() {
    let idx = sample_index();
    assert_eq!(idx.fetch_section(0, "999").err().unwrap(), QueryError::InvalidSectionNumber);
}

#[test]
fn fetch_non_numeric_section_fails() {
    let idx = sample_index();
    assert_eq!(idx.fetch_section(0, "two").err().unwrap(), QueryError::InvalidSectionNumber);
}

#[test]
fn fetch_unknown_sheet_fails() {
    let idx = sample_index();
    assert_eq!(idx.fetch_section(7, "1").err().unwrap(), QueryError::SheetNotFound(7));
}

#[test]
fn outline_far_out_of_range_is_sheet_not_found() {
    let idx = sample_index();
    assert_eq!(idx.outline(1000).err().unwrap(), QueryError::SheetNotFound(1000));
}

#[test]
fn outline_numbers_sections_and_marks_the_last() {
    let idx = sample_index();
    let (header, entries) = idx.outline(0).unwrap();
    assert_eq!(header, "0 - Rust Basics");
    assert_eq!(entries, vec![
        String::from("├── 1. Intro"),
        String::from("└── 2. Outro"),
    ]);
}

#[test]
fn outline_propagates_parse_failure() {
    let mut idx = DocumentIndex::new();
    idx.add(String::from("broken"), String::from("# ----\n# 1. T"));
    assert_eq!(idx.outline(0).err().unwrap(), QueryError::Parse(ParseError::MissingBody));
}

#[test]
fn fetch_full_returns_original_text() {
    let idx = sample_index();
    assert_eq!(idx.fetch_full(0).unwrap(), SHEET);
    assert_eq!(idx.fetch_full(3).err().unwrap(), QueryError::SheetNotFound(3));
}

#[test]
fn listing_skips_unparseable_sheets() {
    let mut idx = DocumentIndex::new();
    idx.add(String::from("broken"), String::from("# ----\n# 1. T"));
    idx.add(String::from("good_sheet"), String::from(SHEET));
    let listing = idx.list_sheets();
    assert_eq!(listing.len(), 1);
    assert_eq!(listing[0].0, "1 - Good Sheet");
    assert_eq!(listing[0].1.len(), 2);
}

#[test]
fn listing_keeps_display_order() {
    let mut idx = DocumentIndex::new();
    idx.add(String::from("alpha"), String::from(SHEET));
    idx.add(String::from("beta"), String::from(SHEET));
    let listing = idx.list_sheets();
    assert_eq!(listing.len(), 2);
    assert_eq!(listing[0].0, "0 - Alpha");
    assert_eq!(listing[1].0, "1 - Beta");
}

#[test]
fn index_lookup_is_zero_based_and_total() {
    let idx = sample_index();
    assert!(idx.get(0).is_some());
    assert!(idx.get(1).is_none());
    assert_eq!(idx.len(), 1);
}

#[test]
fn parse_at_propagates_both_failures() {
    let mut idx = DocumentIndex::new();
    idx.add(String::from("broken"), String::from("# ----\n# 1. T"));
    assert!(matches!(idx.parse_at(0), Err(QueryError::Parse(ParseError::MissingBody))));
    assert!(matches!(idx.parse_at(9), Err(QueryError::SheetNotFound(9))));
    idx.add(String::from("good"), String::from(SHEET));
    assert_eq!(idx.parse_at(1).unwrap().sections.len(), 2);
}

#[test]
fn display_names_are_title_cased_words() {
    assert_eq!(format_name("rust_basics"), "Rust Basics");
    assert_eq!(format_name("a-b_c"), "A B C");
    assert_eq!(format_name("HELLO"), "Hello");
    assert_eq!(format_name("nalgebra"), "Nalgebra");
    assert_eq!(format_name("__x"), "  X");
}

#[test]
fn decimal_formatting() {
    assert_eq!(format_usize(0), "0");
    assert_eq!(format_usize(7), "7");
    assert_eq!(format_usize(10), "10");
    assert_eq!(format_usize(90210), "90210");
}

#[test]
fn decimal_parsing_accepts_what_std_accepts() {
    assert_eq!(parse_usize("42"), Some(42));
    assert_eq!(parse_usize("+7"), Some(7));
    assert_eq!(parse_usize("0"), Some(0));
    assert_eq!(parse_usize("007"), Some(7));
    assert_eq!(parse_usize(""), None);
    assert_eq!(parse_usize("+"), None);
    assert_eq!(parse_usize("4x"), None);
    assert_eq!(parse_usize("-3"), None);
    assert_eq!(parse_usize("99999999999999999999999999999999"), None);
}

#[test]
fn route_decides_the_query() {
    let prog = String::from("rust_cheat");
    assert_eq!(route(&vec![prog.clone()]), Command::List);
    assert_eq!(route(&vec![prog.clone(), String::from("2")]), Command::Outline(2));
    assert_eq!(
        route(&vec![prog.clone(), String::from("1"), String::from("3")]),
        Command::Fetch(1, String::from("3")),
    );
    assert_eq!(route(&vec![prog.clone(), String::from("x")]), Command::BadIndex);
    assert_eq!(route(&vec![prog.clone(), String::from("x"), String::from("1")]), Command::BadIndex);
    assert_eq!(
        route(&vec![prog.clone(), String::from("1"), String::from("2"), String::from("3")]),
        Command::Usage,
    );
}

#[test]
fn error_messages() {
    assert_eq!(QueryError::SheetNotFound(4).message(), "Could not find sheet at index 4");
    assert_eq!(QueryError::InvalidSectionNumber.message(), "Invalid section number");
    assert_eq!(
        QueryError::Parse(ParseError::MissingSeparator).message(),
        "Invalid section title format",
    );
    assert_eq!(QueryError::Parse(ParseError::MissingTitle).message(), "Missing section title");
    assert_eq!(QueryError::Parse(ParseError::MissingBody).message(), "Missing section body");
}
