use crate::text::append_bytes;
use crate::types::{
    block_raw, blocks_raw, blocks_view, doc_raw, Block, BlockV, FrontMatter, MarkdownDocument,
};
use vstd::prelude::*;

verus! {

/// Appending a block appends its raw span to the concatenation.
pub proof fn lemma_blocks_raw_push(bs: Seq<BlockV>, b: BlockV)
    ensures
        blocks_raw(bs.push(b)) == blocks_raw(bs) + block_raw(b),
    decreases bs.len(),
{
    let xs = bs.push(b);
    if bs.len() == 0 {
        assert(xs[0] == b);
        assert(xs.drop_first() =~= Seq::<BlockV>::empty());
        assert(blocks_raw(xs) == block_raw(b) + blocks_raw(Seq::<BlockV>::empty()));
        assert(block_raw(b) + Seq::<u8>::empty() =~= Seq::<u8>::empty() + block_raw(b));
    } else {
        assert(xs[0] == bs[0]);
        assert(xs.drop_first() =~= bs.drop_first().push(b));
        lemma_blocks_raw_push(bs.drop_first(), b);
        assert(blocks_raw(xs) == block_raw(bs[0]) + (blocks_raw(bs.drop_first()) + block_raw(b)));
        assert(block_raw(bs[0]) + (blocks_raw(bs.drop_first()) + block_raw(b)) =~= (block_raw(bs[0])
            + blocks_raw(bs.drop_first())) + block_raw(b));
    }
}

impl MarkdownDocument {
    /// Reconstructs the document text: the front matter's raw span, if any,
    /// followed by every block's raw spans in order. Together with the
    /// parser's contract this is the round-trip: parsing without remainder
    /// and calling this returns the original input.
    pub fn raw(&self) -> (r: Vec<u8>)
        ensures
            r@ == doc_raw(self@),
    {
        let ghost bv = blocks_view(self.blocks);
        let mut out: Vec<u8> = Vec::new();
        match &self.front_matter {
            Some(fm) => {
                match fm {
                    FrontMatter::Raw { raw } => {
                        append_bytes(&mut out, raw.as_slice());
                    },
                    FrontMatter::AnkiSync { raw, .. } => {
                        append_bytes(&mut out, raw.as_slice());
                    },
                }
            },
            None => {},
        }
        let ghost fm_part = out@;
        proof {
            assert(fm_part + blocks_raw(bv.take(0)) =~= fm_part);
        }
        let mut i: usize = 0;
        while i < self.blocks.len()
            invariant
                0 <= i <= self.blocks@.len(),
                bv == blocks_view(self.blocks),
                bv.len() == self.blocks@.len(),
                out@ == fm_part + blocks_raw(bv.take(i as int)),
            decreases self.blocks@.len() - i,
        {
            let ghost out0 = out@;
            match &self.blocks[i] {
                Block::FlashCard(c) => {
                    append_bytes(&mut out, c.raw.as_slice());
                },
                Block::FlashCardWithMeta { metadata, blank_line, flashcard } => {
                    append_bytes(&mut out, metadata.raw.as_slice());
                    match blank_line {
                        Some(bl) => {
                            append_bytes(&mut out, bl.raw.as_slice());
                        },
                        None => {},
                    }
                    append_bytes(&mut out, flashcard.raw.as_slice());
                },
                Block::Uninterested(u) => {
                    append_bytes(&mut out, u.raw.as_slice());
                },
            }
            proof {
                assert(out@ =~= out0 + block_raw(bv[i as int]));
                lemma_blocks_raw_push(bv.take(i as int), bv[i as int]);
                assert(bv.take(i as int).push(bv[i as int]) =~= bv.take(i + 1));
                assert(out@ =~= fm_part + blocks_raw(bv.take(i + 1)));
            }
            i = i + 1;
        }
        proof {
            assert(bv.take(bv.len() as int) =~= bv);
            assert(out@ =~= doc_raw(self@));
        }
        out
    }
}

} // verus!
