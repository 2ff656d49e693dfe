//! The document model. Each value carries the raw bytes it was parsed from
//! (its raw span), so a document can be reconstructed exactly.

use vstd::prelude::*;

verus! {

/// A question/answer pair. `raw` is the untrimmed source span (header line
/// plus every consumed back line); `front` is the question text after `Q:`;
/// `back` is the answer with leading and trailing blank lines removed.
#[derive(Debug, Clone, PartialEq, Eq)]
pub struct FlashCard {
    pub raw: Vec<u8>,
    pub front: Vec<u8>,
    pub back: Vec<u8>,
}

pub struct FlashCardV {
    pub raw: Seq<u8>,
    pub front: Seq<u8>,
    pub back: Seq<u8>,
}

impl View for FlashCard {
    type V = FlashCardV;

    open spec fn view(&self) -> FlashCardV {
        FlashCardV { raw: self.raw@, front: self.front@, back: self.back@ }
    }
}

/// One or more whitespace-only lines, kept verbatim.
#[derive(Debug, Clone, PartialEq, Eq)]
pub struct BlankLine {
    pub raw: Vec<u8>,
}

pub struct BlankLineV {
    pub raw: Seq<u8>,
}

impl View for BlankLine {
    type V = BlankLineV;

    open spec fn view(&self) -> BlankLineV {
        BlankLineV { raw: self.raw@ }
    }
}

/// A `<!-- ... -->` annotation preceding a card. `raw` is the comment text
/// plus any trailing same-line bytes and the line terminator, when present.
#[derive(Debug, Clone, PartialEq, Eq)]
pub struct FlashCardMetaData {
    pub raw: Vec<u8>,
    pub id: Option<u64>,
    pub sync: Option<bool>,
    pub deck: Option<Vec<u8>>,
    pub tags: Option<Vec<Vec<u8>>>,
}

pub struct FlashCardMetaDataV {
    pub raw: Seq<u8>,
    pub id: Option<u64>,
    pub sync: Option<bool>,
    pub deck: Option<Seq<u8>>,
    pub tags: Option<Seq<Seq<u8>>>,
}

impl View for FlashCardMetaData {
    type V = FlashCardMetaDataV;

    open spec fn view(&self) -> FlashCardMetaDataV {
        FlashCardMetaDataV {
            raw: self.raw@,
            id: self.id,
            sync: self.sync,
            deck: match self.deck {
                Some(d) => Some(d@),
                None => None,
            },
            tags: match self.tags {
                Some(t) => Some(t.deep_view()),
                None => None,
            },
        }
    }
}

/// The delimited block at document start. `raw` always holds the literal
/// text including both delimiter lines.
#[derive(Debug, Clone, PartialEq, Eq)]
pub enum FrontMatter {
    Raw { raw: Vec<u8> },
    AnkiSync { raw: Vec<u8>, deck: Option<Vec<u8>>, tags: Vec<Vec<u8>> },
}

pub enum FrontMatterV {
    Raw { raw: Seq<u8> },
    AnkiSync { raw: Seq<u8>, deck: Option<Seq<u8>>, tags: Seq<Seq<u8>> },
}

impl View for FrontMatter {
    type V = FrontMatterV;

    open spec fn view(&self) -> FrontMatterV {
        match self {
            FrontMatter::Raw { raw } => FrontMatterV::Raw { raw: raw@ },
            FrontMatter::AnkiSync { raw, deck, tags } => FrontMatterV::AnkiSync {
                raw: raw@,
                deck: match deck {
                    Some(d) => Some(d@),
                    None => None,
                },
                tags: tags.deep_view(),
            },
        }
    }
}

/// Verbatim text that is neither a flashcard nor a metadata comment.
#[derive(Debug, Clone, PartialEq, Eq)]
pub struct UninterestedBlock {
    pub raw: Vec<u8>,
}

pub struct UninterestedBlockV {
    pub raw: Seq<u8>,
}

impl View for UninterestedBlock {
    type V = UninterestedBlockV;

    open spec fn view(&self) -> UninterestedBlockV {
        UninterestedBlockV { raw: self.raw@ }
    }
}

#[derive(Debug, Clone, PartialEq, Eq)]
pub enum Block {
    FlashCard(FlashCard),
    FlashCardWithMeta {
        metadata: FlashCardMetaData,
        blank_line: Option<BlankLine>,
        flashcard: FlashCard,
    },
    Uninterested(UninterestedBlock),
}

pub enum BlockV {
    FlashCard(FlashCardV),
    FlashCardWithMeta {
        metadata: FlashCardMetaDataV,
        blank_line: Option<BlankLineV>,
        flashcard: FlashCardV,
    },
    Uninterested(UninterestedBlockV),
}

impl View for Block {
    type V = BlockV;

    open spec fn view(&self) -> BlockV {
        match self {
            Block::FlashCard(c) => BlockV::FlashCard(c@),
            Block::FlashCardWithMeta { metadata, blank_line, flashcard } => {
                BlockV::FlashCardWithMeta {
                    metadata: metadata@,
                    blank_line: match blank_line {
                        Some(b) => Some(b@),
                        None => None,
                    },
                    flashcard: flashcard@,
                }
            },
            Block::Uninterested(u) => BlockV::Uninterested(u@),
        }
    }
}

#[derive(Debug)]
pub struct MarkdownDocument {
    pub front_matter: Option<FrontMatter>,
    pub blocks: Vec<Block>,
}

pub struct MarkdownDocumentV {
    pub front_matter: Option<FrontMatterV>,
    pub blocks: Seq<BlockV>,
}

/// The spec-level contents of a block vector.
pub open spec fn blocks_view(v: Vec<Block>) -> Seq<BlockV> {
    Seq::new(v@.len(), |i: int| v@[i]@)
}

impl View for MarkdownDocument {
    type V = MarkdownDocumentV;

    open spec fn view(&self) -> MarkdownDocumentV {
        MarkdownDocumentV {
            front_matter: match self.front_matter {
                Some(f) => Some(f@),
                None => None,
            },
            blocks: blocks_view(self.blocks),
        }
    }
}

/// The raw span of an optional blank line; empty when absent.
pub open spec fn blank_line_opt_raw(b: Option<BlankLineV>) -> Seq<u8> {
    match b {
        Some(bl) => bl.raw,
        None => Seq::empty(),
    }
}

/// The raw bytes a block contributes to the reconstructed document: its own
/// spans, in source order.
pub open spec fn block_raw(b: BlockV) -> Seq<u8> {
    match b {
        BlockV::FlashCard(c) => c.raw,
        BlockV::FlashCardWithMeta { metadata, blank_line, flashcard } => metadata.raw
            + blank_line_opt_raw(blank_line) + flashcard.raw,
        BlockV::Uninterested(u) => u.raw,
    }
}

/// Concatenation of the raw spans of a block sequence.
pub open spec fn blocks_raw(bs: Seq<BlockV>) -> Seq<u8>
    decreases bs.len(),
{
    if bs.len() == 0 {
        Seq::empty()
    } else {
        block_raw(bs[0]) + blocks_raw(bs.drop_first())
    }
}

pub open spec fn front_matter_raw(f: FrontMatterV) -> Seq<u8> {
    match f {
        FrontMatterV::Raw { raw } => raw,
        FrontMatterV::AnkiSync { raw, .. } => raw,
    }
}

/// The full reconstructed text of a document: the front matter span, if
/// any, followed by every block's raw spans in order.
pub open spec fn doc_raw(d: MarkdownDocumentV) -> Seq<u8> {
    let fm = match d.front_matter {
        Some(f) => front_matter_raw(f),
        None => Seq::<u8>::empty(),
    };
    fm + blocks_raw(d.blocks)
}

} // verus!

verus! {

/// Copies a list of byte strings.
pub fn copy_tag_list(v: &Vec<Vec<u8>>) -> (r: Vec<Vec<u8>>)
    ensures
        r.deep_view() == v.deep_view(),
{
    let mut r: Vec<Vec<u8>> = Vec::new();
    let mut i: usize = 0;
    while i < v.len()
        invariant
            0 <= i <= v@.len(),
            r.deep_view() == v.deep_view().take(i as int),
        decreases v@.len() - i,
    {
        let ghost r0 = r.deep_view();
        let b = crate::text::copy_bytes(&v[i]);
        proof {
            assert(b.deep_view() =~= v@[i as int].deep_view());
        }
        r.push(b);
        proof {
            assert(r.deep_view() =~= r0.push(v.deep_view()[i as int]));
            assert(r.deep_view() =~= v.deep_view().take(i + 1));
        }
        i = i + 1;
    }
    proof {
        assert(v.deep_view().take(v@.len() as int) =~= v.deep_view());
    }
    r
}

/// Copies an optional byte string.
pub fn copy_opt_bytes(v: &Option<Vec<u8>>) -> (r: Option<Vec<u8>>)
    ensures
        crate::parser::flashcard_metadata::opt_bytes_view(r)
            == crate::parser::flashcard_metadata::opt_bytes_view(*v),
{
    match v {
        Some(b) => Some(crate::text::copy_bytes(b)),
        None => None,
    }
}

/// Copies an optional list of byte strings.
pub fn copy_opt_tags(v: &Option<Vec<Vec<u8>>>) -> (r: Option<Vec<Vec<u8>>>)
    ensures
        crate::parser::flashcard_metadata::opt_tags_view(r)
            == crate::parser::flashcard_metadata::opt_tags_view(*v),
{
    match v {
        Some(t) => Some(copy_tag_list(t)),
        None => None,
    }
}

/// Copies a flashcard.
pub fn copy_flashcard(c: &FlashCard) -> (r: FlashCard)
    ensures
        r@ == c@,
{
    FlashCard {
        raw: crate::text::copy_bytes(&c.raw),
        front: crate::text::copy_bytes(&c.front),
        back: crate::text::copy_bytes(&c.back),
    }
}

/// Copies a metadata value.
pub fn copy_metadata(m: &FlashCardMetaData) -> (r: FlashCardMetaData)
    ensures
        r@ == m@,
{
    FlashCardMetaData {
        raw: crate::text::copy_bytes(&m.raw),
        id: m.id,
        sync: m.sync,
        deck: copy_opt_bytes(&m.deck),
        tags: copy_opt_tags(&m.tags),
    }
}

/// Copies an optional blank line.
pub fn copy_opt_blank_line(b: &Option<BlankLine>) -> (r: Option<BlankLine>)
    ensures
        match (r, b) {
            (Some(x), Some(y)) => x@ == y@,
            (None, None) => true,
            _ => false,
        },
{
    match b {
        Some(bl) => Some(BlankLine { raw: crate::text::copy_bytes(&bl.raw) }),
        None => None,
    }
}

/// Copies a block.
pub fn copy_block(b: &Block) -> (r: Block)
    ensures
        r@ == b@,
{
    match b {
        Block::FlashCard(c) => Block::FlashCard(copy_flashcard(c)),
        Block::FlashCardWithMeta { metadata, blank_line, flashcard } => Block::FlashCardWithMeta {
            metadata: copy_metadata(metadata),
            blank_line: copy_opt_blank_line(blank_line),
            flashcard: copy_flashcard(flashcard),
        },
        Block::Uninterested(u) => Block::Uninterested(
            UninterestedBlock { raw: crate::text::copy_bytes(&u.raw) },
        ),
    }
}

} // verus!
