//! Catch-all parser for verbatim text: accumulates whole lines, stopping
//! (without consuming it) before the end of input, a line where a flashcard
//! parse would succeed, or a line where a metadata comment parse would
//! succeed. At least one line must be consumed.

use crate::parser::flashcard::spec_parse_flashcard;
use crate::parser::flashcard_metadata::spec_parse_flashcard_metadata;
use crate::text::next_line_start;
use crate::types::{UninterestedBlock, UninterestedBlockV};
use vstd::prelude::*;

verus! {

broadcast use {
    crate::text::lemma_skip_spaces_bounds,
    crate::text::lemma_line_content_end_bounds,
    crate::text::lemma_next_line_start_bounds,
};

/// End of the run of lines that are neither a flashcard nor a metadata
/// comment, starting at `pos`.
pub open spec fn uninterested_scan(s: Seq<u8>, pos: int) -> int
    decreases s.len() - pos,
{
    if 0 <= pos < s.len() && spec_parse_flashcard(s, pos) is None && spec_parse_flashcard_metadata(
        s,
        pos,
    ) is None {
        let nx = next_line_start(s, pos);
        if pos < nx <= s.len() {
            uninterested_scan(s, nx)
        } else {
            pos
        }
    } else {
        pos
    }
}

pub proof fn lemma_uninterested_scan_bounds(s: Seq<u8>, pos: int)
    requires
        0 <= pos <= s.len(),
    ensures
        pos <= uninterested_scan(s, pos) <= s.len(),
    decreases s.len() - pos,
{
    if 0 <= pos < s.len() && spec_parse_flashcard(s, pos) is None && spec_parse_flashcard_metadata(
        s,
        pos,
    ) is None {
        let nx = next_line_start(s, pos);
        if pos < nx <= s.len() {
            lemma_uninterested_scan_bounds(s, nx);
        }
    }
}

/// The consumed span, when at least one line was consumed.
pub open spec fn spec_parse_uninterested_block(s: Seq<u8>, pos: int) -> Option<
    (int, UninterestedBlockV),
> {
    let e = uninterested_scan(s, pos);
    if e > pos {
        Some((e, UninterestedBlockV { raw: s.subrange(pos, e) }))
    } else {
        None
    }
}

/// Parses a passthrough block at `pos`; fails when the first line already
/// starts a flashcard or a metadata comment, or at the end of input.
pub fn parse_uninterested_block(input: &[u8], pos: usize) -> (r: Option<(usize, UninterestedBlock)>)
    requires
        pos <= input@.len(),
    ensures
        match r {
            Some((e, u)) => pos < e <= input@.len() && spec_parse_uninterested_block(
                input@,
                pos as int,
            ) == Some((e as int, u@)),
            None => spec_parse_uninterested_block(input@, pos as int) is None,
        },
{
    proof {
        lemma_uninterested_scan_bounds(input@, pos as int);
    }
    let mut cur = pos;
    loop
        invariant
            pos <= cur <= input@.len(),
            uninterested_scan(input@, pos as int) == uninterested_scan(input@, cur as int),
        ensures
            cur == uninterested_scan(input@, pos as int),
        decreases input@.len() - cur,
    {
        if cur >= input.len() {
            break;
        }
        if crate::parser::flashcard::parse_flashcard(input, cur).is_some() {
            break;
        }
        if crate::parser::flashcard_metadata::parse_flashcard_metadata(input, cur).is_some() {
            break;
        }
        let nx = crate::text::next_line_start_x(input, cur);
        proof {
            assert(cur < nx);
        }
        cur = nx;
    }
    if cur > pos {
        let raw = crate::text::copy_range(input, pos, cur);
        Some((cur, UninterestedBlock { raw }))
    } else {
        None
    }
}

} // verus!
