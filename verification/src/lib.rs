//! Parser and serializer for the brace-delimited configuration format used by
//! embedded router operating systems ("config.boot" style files): a tree of
//! named settings followed by a fixed block of three trailing annotation lines.
//!
//! [`parser::parse_file`] turns raw text into a [`types::File`];
//! [`types::File::serialize`] renders the tree back to canonical text with
//! four spaces of indentation per nesting level.

pub mod laws;
pub mod parser;
pub mod types;
