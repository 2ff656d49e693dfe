//! Recursive-descent parsers for the flashcard dialect. Each parser has a
//! spec-level counterpart over `Seq<u8>` that defines the grammar; the
//! executable parser is proved to return exactly what the spec parser says.
//!
//! Parsers take the whole input buffer and a cursor position, and on success
//! return the new cursor position together with the parsed value. Every raw
//! span in a parsed value is the exact slice of input between the positions
//! the value was parsed from.

pub mod blank_line;
pub mod uninterested_block;
pub mod flashcard;
pub mod flashcard_metadata;
pub mod document;
pub mod front_matter;
