//! A lossless parser for a markdown flashcard dialect, a planner that maps
//! each parsed block to a note-service action, a reconciliation engine that
//! folds service responses back into the document, and a serializer that
//! reconstructs the original bytes.
//!
//! Every raw span captured while parsing is an exact slice of the input, so
//! concatenating the spans of a fully parsed document yields the input
//! byte-for-byte; this round-trip guarantee is stated in the contracts of
//! `parser::document::parse_document` and `types::MarkdownDocument::raw` and
//! proved as `parser::document::lemma_document_round_trip`.

pub mod anki;
pub mod document_with_anki_actions;
pub mod parser;
pub mod text;
pub mod types;
pub mod writer;
