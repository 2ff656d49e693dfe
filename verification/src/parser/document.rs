//! Top-level document parser and the round-trip theorem.
//!
//! After the optional front matter, the parser repeatedly tries, at each
//! position, in order: a metadata comment followed by an optional blank
//! line and a flashcard; a bare flashcard; a passthrough block. When a
//! metadata comment parses but no flashcard follows it, that whole
//! alternative fails, and because a passthrough block refuses to start on a
//! metadata comment, no alternative accepts the position: the loop stops
//! and the unconsumed remainder is reported through the returned position.
//! An unterminated front matter block fails the whole parse.

use crate::parser::blank_line::{lemma_blank_run_end_bounds, spec_parse_blank_line};
use crate::parser::flashcard::{lemma_parse_flashcard_bounds, spec_parse_flashcard};
use crate::parser::flashcard_metadata::{
    lemma_parse_metadata_bounds, spec_parse_flashcard_metadata,
};
use crate::parser::front_matter::{
    is_delim_line, lemma_parse_front_matter_bounds, spec_parse_front_matter,
};
use crate::parser::uninterested_block::{
    lemma_uninterested_scan_bounds, spec_parse_uninterested_block,
};
use crate::types::{
    blank_line_opt_raw, block_raw, blocks_raw, blocks_view, doc_raw, front_matter_raw, Block,
    BlockV, MarkdownDocument, MarkdownDocumentV,
};
use vstd::prelude::*;

verus! {

/// A bare flashcard, or else a passthrough block.
pub open spec fn spec_parse_block_bare(s: Seq<u8>, pos: int) -> Option<(int, BlockV)> {
    match spec_parse_flashcard(s, pos) {
        Some((e, c)) => Some((e, BlockV::FlashCard(c))),
        None => match spec_parse_uninterested_block(s, pos) {
            Some((e, u)) => Some((e, BlockV::Uninterested(u))),
            None => None,
        },
    }
}

/// One block: a metadata comment with an optional blank line and a
/// flashcard; on any failure of that alternative, a bare flashcard; else a
/// passthrough block.
pub open spec fn spec_parse_block(s: Seq<u8>, pos: int) -> Option<(int, BlockV)> {
    match spec_parse_flashcard_metadata(s, pos) {
        Some((p1, m)) => {
            let (p2, bl) = match spec_parse_blank_line(s, p1) {
                Some((q, b)) => (q, Some(b)),
                None => (p1, None),
            };
            match spec_parse_flashcard(s, p2) {
                Some((p3, c)) => Some(
                    (p3, BlockV::FlashCardWithMeta { metadata: m, blank_line: bl, flashcard: c }),
                ),
                None => spec_parse_block_bare(s, pos),
            }
        },
        None => spec_parse_block_bare(s, pos),
    }
}

/// The block sequence from `pos` on: blocks are appended while some
/// alternative matches.
pub open spec fn spec_blocks_cont(s: Seq<u8>, pos: int, acc: Seq<BlockV>) -> (int, Seq<BlockV>)
    decreases s.len() - pos,
{
    if 0 <= pos <= s.len() {
        match spec_parse_block(s, pos) {
            Some((e, b)) => if pos < e <= s.len() {
                spec_blocks_cont(s, e, acc.push(b))
            } else {
                (pos, acc)
            },
            None => (pos, acc),
        }
    } else {
        (pos, acc)
    }
}

/// The whole document: optional front matter, then blocks. `None` exactly
/// when the input opens a front matter block that never closes. The
/// returned position is where parsing stopped; unconsumed input from there
/// on is the remainder.
pub open spec fn spec_parse_document(s: Seq<u8>) -> Option<(int, MarkdownDocumentV)> {
    match spec_parse_front_matter(s, 0) {
        Some((p, fm)) => {
            let (e, bs) = spec_blocks_cont(s, p, Seq::empty());
            Some((e, MarkdownDocumentV { front_matter: Some(fm), blocks: bs }))
        },
        None => {
            if is_delim_line(s, 0) {
                None
            } else {
                let (e, bs) = spec_blocks_cont(s, 0, Seq::empty());
                Some((e, MarkdownDocumentV { front_matter: None, blocks: bs }))
            }
        },
    }
}

/// A parsed block covers exactly the consumed bytes: its raw spans
/// concatenate to the input slice between its start and end positions.
pub proof fn lemma_block_raw_exact(s: Seq<u8>, pos: int)
    requires
        0 <= pos <= s.len(),
    ensures
        match spec_parse_block(s, pos) {
            Some((e, b)) => pos < e <= s.len() && block_raw(b) == s.subrange(pos, e),
            None => true,
        },
{
    lemma_parse_metadata_bounds(s, pos);
    lemma_parse_flashcard_bounds(s, pos);
    lemma_uninterested_scan_bounds(s, pos);
    match spec_parse_flashcard_metadata(s, pos) {
        Some((p1, m)) => {
            lemma_blank_run_end_bounds(s, p1);
            let (p2, bl) = match spec_parse_blank_line(s, p1) {
                Some((q, b)) => (q, Some(b)),
                None => (p1, None),
            };
            lemma_parse_flashcard_bounds(s, p2);
            match spec_parse_flashcard(s, p2) {
                Some((p3, c)) => {
                    assert(m.raw + blank_line_opt_raw(bl) + c.raw =~= s.subrange(pos, p3));
                },
                None => {},
            }
        },
        None => {},
    }
}

proof fn lemma_blocks_raw_push(bs: Seq<BlockV>, b: BlockV)
    ensures
        blocks_raw(bs.push(b)) == blocks_raw(bs) + block_raw(b),
    decreases bs.len(),
{
    let xs = bs.push(b);
    if bs.len() == 0 {
        assert(xs[0] == b);
        assert(xs.drop_first() =~= Seq::<BlockV>::empty());
        assert(blocks_raw(xs) == block_raw(b) + blocks_raw(Seq::<BlockV>::empty()));
        assert(block_raw(b) + Seq::<u8>::empty() =~= Seq::<u8>::empty() + block_raw(b));
    } else {
        assert(xs[0] == bs[0]);
        assert(xs.drop_first() =~= bs.drop_first().push(b));
        lemma_blocks_raw_push(bs.drop_first(), b);
        assert(blocks_raw(xs) == block_raw(bs[0]) + (blocks_raw(bs.drop_first()) + block_raw(b)));
        assert(block_raw(bs[0]) + (blocks_raw(bs.drop_first()) + block_raw(b)) =~= (block_raw(bs[0])
            + blocks_raw(bs.drop_first())) + block_raw(b));
    }
}

/// The block loop preserves exact coverage: if the accumulated blocks cover
/// `[start, pos)`, the finished sequence covers `[start, end)`.
pub proof fn lemma_blocks_cont_raw(s: Seq<u8>, pos: int, acc: Seq<BlockV>, start: int)
    requires
        0 <= start <= pos <= s.len(),
        blocks_raw(acc) == s.subrange(start, pos),
    ensures
        ({
            let (e, bs) = spec_blocks_cont(s, pos, acc);
            pos <= e <= s.len() && blocks_raw(bs) == s.subrange(start, e)
        }),
    decreases s.len() - pos,
{
    lemma_block_raw_exact(s, pos);
    match spec_parse_block(s, pos) {
        Some((e, b)) => {
            if pos < e <= s.len() {
                lemma_blocks_raw_push(acc, b);
                assert(blocks_raw(acc.push(b)) =~= s.subrange(start, e));
                lemma_blocks_cont_raw(s, e, acc.push(b), start);
            }
        },
        None => {},
    }
}

/// Round-trip: a parsed document's raw spans concatenate to exactly the
/// consumed prefix of the input; a document parsed without remainder
/// reconstructs the whole input byte-for-byte.
#[verifier::rlimit(60)]
pub proof fn lemma_document_round_trip(s: Seq<u8>)
    ensures
        match spec_parse_document(s) {
            Some((e, d)) => 0 <= e <= s.len() && doc_raw(d) == s.subrange(0, e) && (e == s.len()
                ==> doc_raw(d) == s),
            None => true,
        },
{
    lemma_parse_front_matter_bounds(s, 0);
    match spec_parse_front_matter(s, 0) {
        Some((p, fm)) => {
            assert(blocks_raw(Seq::<BlockV>::empty()) =~= s.subrange(p, p));
            lemma_blocks_cont_raw(s, p, Seq::empty(), p);
            let (e, bs) = spec_blocks_cont(s, p, Seq::empty());
            assert(front_matter_raw(fm) + s.subrange(p, e) =~= s.subrange(0, e));
            assert(s.subrange(0, s.len() as int) =~= s);
        },
        None => {
            if !is_delim_line(s, 0) {
                assert(blocks_raw(Seq::<BlockV>::empty()) =~= s.subrange(0, 0));
                lemma_blocks_cont_raw(s, 0, Seq::empty(), 0);
                let (e, bs) = spec_blocks_cont(s, 0, Seq::empty());
                assert(Seq::<u8>::empty() + s.subrange(0, e) =~= s.subrange(0, e));
                assert(s.subrange(0, s.len() as int) =~= s);
            }
        },
    }
}

fn parse_block_bare(input: &[u8], pos: usize) -> (r: Option<(usize, Block)>)
    requires
        pos <= input@.len(),
    ensures
        match r {
            Some((e, b)) => pos < e <= input@.len() && spec_parse_block_bare(input@, pos as int)
                == Some((e as int, b@)),
            None => spec_parse_block_bare(input@, pos as int) is None,
        },
{
    match crate::parser::flashcard::parse_flashcard(input, pos) {
        Some((e, c)) => Some((e, Block::FlashCard(c))),
        None => match crate::parser::uninterested_block::parse_uninterested_block(input, pos) {
            Some((e, u)) => Some((e, Block::Uninterested(u))),
            None => None,
        },
    }
}

fn parse_block(input: &[u8], pos: usize) -> (r: Option<(usize, Block)>)
    requires
        pos <= input@.len(),
    ensures
        match r {
            Some((e, b)) => pos < e <= input@.len() && spec_parse_block(input@, pos as int) == Some(
                (e as int, b@),
            ),
            None => spec_parse_block(input@, pos as int) is None,
        },
{
    match crate::parser::flashcard_metadata::parse_flashcard_metadata(input, pos) {
        Some((p1, m)) => {
            let (p2, bl) = match crate::parser::blank_line::parse_blank_line(input, p1) {
                Some((q, b)) => (q, Some(b)),
                None => (p1, None),
            };
            match crate::parser::flashcard::parse_flashcard(input, p2) {
                Some((p3, c)) => Some(
                    (p3, Block::FlashCardWithMeta { metadata: m, blank_line: bl, flashcard: c }),
                ),
                None => parse_block_bare(input, pos),
            }
        },
        None => parse_block_bare(input, pos),
    }
}

/// Parses a whole document. `None` exactly when the input opens a front
/// matter block that never closes. On success the returned position is
/// where parsing stopped: a value equal to the input length means the whole
/// input was consumed, anything less leaves the remainder starting there.
/// The document's raw spans concatenate to exactly the consumed prefix.
pub fn parse_document(input: &[u8]) -> (r: Option<(usize, MarkdownDocument)>)
    ensures
        match r {
            Some((e, d)) => e <= input@.len() && spec_parse_document(input@) == Some(
                (e as int, d@),
            ) && doc_raw(d@) == input@.subrange(0, e as int) && (e == input@.len() ==> doc_raw(d@)
                == input@),
            None => spec_parse_document(input@) is None,
        },
{
    let ghost s = input@;
    proof {
        lemma_document_round_trip(s);
    }
    let (start, front_matter) = match crate::parser::front_matter::parse_front_matter(input, 0) {
        Some((p, fm)) => (p, Some(fm)),
        None => {
            if crate::parser::front_matter::is_delim_line_x(input, 0) {
                return None;
            }
            (0, None)
        },
    };
    let mut blocks: Vec<Block> = Vec::new();
    let mut cur = start;
    proof {
        assert(blocks_view(blocks) =~= Seq::<BlockV>::empty());
    }
    loop
        invariant
            s == input@,
            0 <= cur <= s.len(),
            spec_blocks_cont(s, start as int, Seq::empty()) == spec_blocks_cont(
                s,
                cur as int,
                blocks_view(blocks),
            ),
        ensures
            spec_blocks_cont(s, start as int, Seq::empty()) == (cur as int, blocks_view(blocks)),
        decreases s.len() - cur,
    {
        let ghost acc0 = blocks_view(blocks);
        match parse_block(input, cur) {
            Some((e, b)) => {
                let ghost bv = b@;
                proof {
                    assert(spec_blocks_cont(s, cur as int, acc0) == spec_blocks_cont(
                        s,
                        e as int,
                        acc0.push(bv),
                    ));
                }
                blocks.push(b);
                proof {
                    assert(blocks_view(blocks) =~= acc0.push(bv));
                }
                cur = e;
            },
            None => {
                proof {
                    assert(spec_blocks_cont(s, cur as int, acc0) == (cur as int, acc0));
                }
                break;
            },
        }
    }
    Some((cur, MarkdownDocument { front_matter, blocks }))
}

} // verus!
