//! Serialization back to markdown bytes: document reconstruction from raw
//! spans, and canonical regeneration of metadata comments.

pub mod blank_line;
pub mod document;
pub mod flashcard_metadata;
