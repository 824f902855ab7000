//! A small command-line reference browser: a fixed set of plain-text sheets,
//! each split into titled sections by an in-band marker convention (a divider
//! line followed by a header line), with index-based retrieval of a sheet's
//! outline, one section's content, or the full raw text.

pub mod command;
pub mod facade;
pub mod index;
pub mod laws;
pub mod lines;
pub mod names;
pub mod numbers;
pub mod parser;
pub mod section;
