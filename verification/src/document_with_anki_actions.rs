//! The sync planner and the reconciliation engine.
//!
//! Planning maps each parsed block, together with the document-level
//! defaults from the front matter, to an action: create a note, update a
//! note, or do nothing. Reconciliation folds each action's response back
//! into an updated block; the document-level commit is all-or-nothing.

use crate::anki::{BasicModelFields, BasicModelFieldsV, Note, NoteV, Request, Response, ResponseV};
use crate::parser::flashcard_metadata::opt_bytes_view;
use crate::types::{
    blocks_view, copy_block, copy_opt_blank_line, copy_opt_bytes, copy_opt_tags, copy_tag_list,
    Block, BlockV, FlashCardMetaData, FrontMatter, FrontMatterV, MarkdownDocument,
};
use crate::writer::flashcard_metadata::from_fields_raw;
use vstd::prelude::*;

verus! {

#[derive(Debug)]
pub enum AnkiAction {
    CreateNote(Note),
    UpdateNote(Note),
    DoNothing,
}

pub enum AnkiActionV {
    CreateNote(NoteV),
    UpdateNote(NoteV),
    DoNothing,
}

impl View for AnkiAction {
    type V = AnkiActionV;

    open spec fn view(&self) -> AnkiActionV {
        match self {
            AnkiAction::CreateNote(n) => AnkiActionV::CreateNote(n@),
            AnkiAction::UpdateNote(n) => AnkiActionV::UpdateNote(n@),
            AnkiAction::DoNothing => AnkiActionV::DoNothing,
        }
    }
}

#[derive(Debug)]
pub struct BlockWithAnkiAction {
    pub block: Block,
    pub anki_action: AnkiAction,
}

pub struct BlockWithAnkiActionV {
    pub block: BlockV,
    pub anki_action: AnkiActionV,
}

impl View for BlockWithAnkiAction {
    type V = BlockWithAnkiActionV;

    open spec fn view(&self) -> BlockWithAnkiActionV {
        BlockWithAnkiActionV { block: self.block@, anki_action: self.anki_action@ }
    }
}

#[derive(Debug)]
pub struct MarkdownDocumentWithAnkiActions {
    pub front_matter: Option<FrontMatter>,
    pub blocks_with_anki_action: Vec<BlockWithAnkiAction>,
}

pub struct MarkdownDocumentWithAnkiActionsV {
    pub front_matter: Option<FrontMatterV>,
    pub blocks_with_anki_action: Seq<BlockWithAnkiActionV>,
}

/// The spec-level contents of a vector of blocks with actions.
pub open spec fn actions_view(v: Vec<BlockWithAnkiAction>) -> Seq<BlockWithAnkiActionV> {
    Seq::new(v@.len(), |i: int| v@[i]@)
}

impl View for MarkdownDocumentWithAnkiActions {
    type V = MarkdownDocumentWithAnkiActionsV;

    open spec fn view(&self) -> MarkdownDocumentWithAnkiActionsV {
        MarkdownDocumentWithAnkiActionsV {
            front_matter: opt_fm_view(self.front_matter),
            blocks_with_anki_action: actions_view(self.blocks_with_anki_action),
        }
    }
}

/// A block that could not be reconciled, with the response it met, kept for
/// diagnostics.
#[derive(Debug)]
pub struct AppError {
    pub block: Block,
    pub response: Option<Response>,
}

pub struct AppErrorV {
    pub block: BlockV,
    pub response: Option<ResponseV>,
}

impl View for AppError {
    type V = AppErrorV;

    open spec fn view(&self) -> AppErrorV {
        AppErrorV { block: self.block@, response: opt_response_view(self.response) }
    }
}

pub open spec fn opt_fm_view(f: Option<FrontMatter>) -> Option<FrontMatterV> {
    match f {
        Some(fm) => Some(fm@),
        None => None,
    }
}

pub open spec fn opt_response_view(r: Option<Response>) -> Option<ResponseV> {
    match r {
        Some(x) => Some(x@),
        None => None,
    }
}

pub open spec fn kw_basic() -> Seq<u8> {
    seq!['B' as u8, 'a' as u8, 's' as u8, 'i' as u8, 'c' as u8]
}

pub open spec fn kw_default_deck() -> Seq<u8> {
    seq!['D' as u8, 'e' as u8, 'f' as u8, 'a' as u8, 'u' as u8, 'l' as u8, 't' as u8]
}

/// The deck named by the front matter, when it is an `AnkiSync` block with
/// a deck.
pub open spec fn fm_deck(fm: Option<FrontMatterV>) -> Option<Seq<u8>> {
    match fm {
        Some(FrontMatterV::AnkiSync { deck, .. }) => deck,
        _ => None,
    }
}

/// The tags named by the front matter; empty otherwise.
pub open spec fn fm_tags(fm: Option<FrontMatterV>) -> Seq<Seq<u8>> {
    match fm {
        Some(FrontMatterV::AnkiSync { tags, .. }) => tags,
        _ => Seq::empty(),
    }
}

pub open spec fn deck_or_default(d: Option<Seq<u8>>) -> Seq<u8> {
    match d {
        Some(x) => x,
        None => kw_default_deck(),
    }
}

pub open spec fn first_deck(a: Option<Seq<u8>>, b: Option<Seq<u8>>) -> Option<Seq<u8>> {
    match a {
        Some(x) => Some(x),
        None => b,
    }
}

/// The metadata's sync flag permits syncing: absent or `true`.
pub open spec fn sync_enabled(sync: Option<bool>) -> bool {
    match sync {
        Some(b) => b,
        None => true,
    }
}

/// The action planned for a block. A bare flashcard becomes a creation with
/// the front matter's deck (or `Default`) and tags. A flashcard with
/// metadata whose id is present and whose sync flag is absent or `true`
/// becomes an update, its deck and tags taken from the metadata first, the
/// front matter second, the defaults last. Everything else does nothing.
pub open spec fn spec_plan(b: BlockV, fm: Option<FrontMatterV>) -> AnkiActionV {
    match b {
        BlockV::FlashCard(c) => AnkiActionV::CreateNote(
            NoteV {
                id: None,
                deck_name: deck_or_default(fm_deck(fm)),
                model_name: kw_basic(),
                fields: BasicModelFieldsV { front: c.front, back: c.back },
                tags: fm_tags(fm),
            },
        ),
        BlockV::FlashCardWithMeta { metadata, blank_line, flashcard } => {
            if metadata.id is Some && sync_enabled(metadata.sync) {
                AnkiActionV::UpdateNote(
                    NoteV {
                        id: metadata.id,
                        deck_name: deck_or_default(first_deck(metadata.deck, fm_deck(fm))),
                        model_name: kw_basic(),
                        fields: BasicModelFieldsV { front: flashcard.front, back: flashcard.back },
                        tags: match metadata.tags {
                            Some(t) => t,
                            None => fm_tags(fm),
                        },
                    },
                )
            } else {
                AnkiActionV::DoNothing
            }
        },
        BlockV::Uninterested(_) => AnkiActionV::DoNothing,
    }
}

fn arr_basic() -> (r: [u8; 5])
    ensures
        r@ == kw_basic(),
{
    let a = ['B' as u8, 'a' as u8, 's' as u8, 'i' as u8, 'c' as u8];
    proof {
        assert(a@ =~= kw_basic());
    }
    a
}

fn arr_default_deck() -> (r: [u8; 7])
    ensures
        r@ == kw_default_deck(),
{
    let a = ['D' as u8, 'e' as u8, 'f' as u8, 'a' as u8, 'u' as u8, 'l' as u8, 't' as u8];
    proof {
        assert(a@ =~= kw_default_deck());
    }
    a
}

/// The front matter's deck, copied, when present.
fn fm_deck_x(front_matter: &Option<FrontMatter>) -> (r: Option<Vec<u8>>)
    ensures
        opt_bytes_view(r) == fm_deck(opt_fm_view(*front_matter)),
{
    match front_matter {
        Some(FrontMatter::AnkiSync { deck, .. }) => copy_opt_bytes(deck),
        _ => None,
    }
}

/// The front matter's tags, copied; empty when absent.
fn fm_tags_x(front_matter: &Option<FrontMatter>) -> (r: Vec<Vec<u8>>)
    ensures
        r.deep_view() == fm_tags(opt_fm_view(*front_matter)),
{
    match front_matter {
        Some(FrontMatter::AnkiSync { tags, .. }) => copy_tag_list(tags),
        _ => {
            let r: Vec<Vec<u8>> = Vec::new();
            proof {
                assert(r.deep_view() =~= Seq::<Seq<u8>>::empty());
            }
            r
        },
    }
}

fn deck_or_default_x(d: Option<Vec<u8>>) -> (r: Vec<u8>)
    ensures
        r@ == deck_or_default(opt_bytes_view(d)),
{
    match d {
        Some(x) => x,
        None => {
            let a = arr_default_deck();
            vstd::slice::slice_to_vec(a.as_slice())
        },
    }
}

impl BlockWithAnkiAction {
    /// Plans the action for one block, given the document's front matter.
    pub fn from_block(block: Block, front_matter: &Option<FrontMatter>) -> (r: Self)
        ensures
            r.block@ == block@,
            r.anki_action@ == spec_plan(block@, opt_fm_view(*front_matter)),
    {
        let anki_action = match &block {
            Block::FlashCard(c) => {
                let basic = arr_basic();
                AnkiAction::CreateNote(
                    Note {
                        id: None,
                        deck_name: deck_or_default_x(fm_deck_x(front_matter)),
                        model_name: vstd::slice::slice_to_vec(basic.as_slice()),
                        fields: BasicModelFields {
                            front: crate::text::copy_bytes(&c.front),
                            back: crate::text::copy_bytes(&c.back),
                        },
                        tags: fm_tags_x(front_matter),
                    },
                )
            },
            Block::FlashCardWithMeta { metadata, blank_line, flashcard } => {
                let id_present = metadata.id.is_some();
                let sync_ok = match metadata.sync {
                    Some(b) => b,
                    None => true,
                };
                if id_present && sync_ok {
                    let deck = match &metadata.deck {
                        Some(d) => Some(crate::text::copy_bytes(d)),
                        None => fm_deck_x(front_matter),
                    };
                    let tags = match &metadata.tags {
                        Some(t) => copy_tag_list(t),
                        None => fm_tags_x(front_matter),
                    };
                    let basic = arr_basic();
                    AnkiAction::UpdateNote(
                        Note {
                            id: metadata.id,
                            deck_name: deck_or_default_x(deck),
                            model_name: vstd::slice::slice_to_vec(basic.as_slice()),
                            fields: BasicModelFields {
                                front: crate::text::copy_bytes(&flashcard.front),
                                back: crate::text::copy_bytes(&flashcard.back),
                            },
                            tags,
                        },
                    )
                } else {
                    AnkiAction::DoNothing
                }
            },
            Block::Uninterested(_) => AnkiAction::DoNothing,
        };
        BlockWithAnkiAction { block, anki_action }
    }
}

} // verus!

verus! {

/// The metadata value that `FlashCardMetaData::from_fields` builds: the
/// given fields under a canonically regenerated raw span.
pub open spec fn regenerated_meta(
    id: Option<u64>,
    deck: Option<Seq<u8>>,
    sync: Option<bool>,
    tags: Option<Seq<Seq<u8>>>,
) -> crate::types::FlashCardMetaDataV {
    crate::types::FlashCardMetaDataV {
        raw: from_fields_raw(id, deck, sync, tags),
        id: id,
        sync: sync,
        deck: deck,
        tags: tags,
    }
}

/// Reconciliation of one block with the response its action received.
///
/// With no response, a block whose action sent no request passes through
/// unchanged; an actionable block without a response is a failure, since
/// its request got no answer. With a response: a creation that got a fresh
/// id turns the block into one with metadata carrying that id (a bare card
/// also gains a single blank line); an update that got a null result and no
/// error keeps the semantic fields and regenerates the metadata's raw text;
/// every other combination fails.
pub open spec fn spec_reconcile(block: BlockV, action: AnkiActionV, resp: Option<ResponseV>)
    -> Option<BlockV> {
    match resp {
        None => match action {
            AnkiActionV::DoNothing => Some(block),
            _ => None,
        },
        Some(r) => match (block, action) {
            (BlockV::FlashCard(c), AnkiActionV::CreateNote(_)) => {
                if r.result is Some && r.error is None {
                    Some(
                        BlockV::FlashCardWithMeta {
                            metadata: regenerated_meta(r.result, None, None, None),
                            blank_line: Some(
                                crate::types::BlankLineV { raw: seq![crate::text::LF] },
                            ),
                            flashcard: c,
                        },
                    )
                } else {
                    None
                }
            },
            (
                BlockV::FlashCardWithMeta { metadata, blank_line, flashcard },
                AnkiActionV::CreateNote(_),
            ) => {
                if r.result is Some && r.error is None {
                    Some(
                        BlockV::FlashCardWithMeta {
                            metadata: regenerated_meta(
                                r.result,
                                metadata.deck,
                                metadata.sync,
                                metadata.tags,
                            ),
                            blank_line: blank_line,
                            flashcard: flashcard,
                        },
                    )
                } else {
                    None
                }
            },
            (
                BlockV::FlashCardWithMeta { metadata, blank_line, flashcard },
                AnkiActionV::UpdateNote(_),
            ) => {
                if r.result is None && r.error is None {
                    Some(
                        BlockV::FlashCardWithMeta {
                            metadata: regenerated_meta(
                                metadata.id,
                                metadata.deck,
                                metadata.sync,
                                metadata.tags,
                            ),
                            blank_line: blank_line,
                            flashcard: flashcard,
                        },
                    )
                } else {
                    None
                }
            },
            _ => None,
        },
    }
}

impl BlockWithAnkiAction {
    /// Reconciles this block with the response its action received. With no
    /// response the block comes back unchanged, byte-for-byte; on an
    /// unexpected block and response combination the error carries both for
    /// diagnostics.
    pub fn block_from_response(&self, response: &Option<Response>) -> (r: Result<Block, AppError>)
        ensures
            match r {
                Ok(b) => spec_reconcile(self.block@, self.anki_action@, opt_response_view(*response))
                    == Some(b@),
                Err(e) => spec_reconcile(
                    self.block@,
                    self.anki_action@,
                    opt_response_view(*response),
                ) is None && e.block@ == self.block@ && opt_response_view(e.response)
                    == opt_response_view(*response),
            },
    {
        match response {
            None => match &self.anki_action {
                AnkiAction::DoNothing => Ok(copy_block(&self.block)),
                _ => Err(AppError { block: copy_block(&self.block), response: None }),
            },
            Some(resp) => {
                let ok = match (&self.block, &self.anki_action) {
                    (Block::FlashCard(c), AnkiAction::CreateNote(_)) => {
                        if resp.result.is_some() && resp.error.is_none() {
                            Some(
                                Block::FlashCardWithMeta {
                                    metadata: FlashCardMetaData::from_fields(
                                        resp.result,
                                        None,
                                        None,
                                        None,
                                    ),
                                    blank_line: Some(crate::types::BlankLine::empty()),
                                    flashcard: crate::types::copy_flashcard(c),
                                },
                            )
                        } else {
                            None
                        }
                    },
                    (
                        Block::FlashCardWithMeta { metadata, blank_line, flashcard },
                        AnkiAction::CreateNote(_),
                    ) => {
                        if resp.result.is_some() && resp.error.is_none() {
                            Some(
                                Block::FlashCardWithMeta {
                                    metadata: FlashCardMetaData::from_fields(
                                        resp.result,
                                        copy_opt_bytes(&metadata.deck),
                                        metadata.sync,
                                        copy_opt_tags(&metadata.tags),
                                    ),
                                    blank_line: copy_opt_blank_line(blank_line),
                                    flashcard: crate::types::copy_flashcard(flashcard),
                                },
                            )
                        } else {
                            None
                        }
                    },
                    (
                        Block::FlashCardWithMeta { metadata, blank_line, flashcard },
                        AnkiAction::UpdateNote(_),
                    ) => {
                        if resp.result.is_none() && resp.error.is_none() {
                            Some(
                                Block::FlashCardWithMeta {
                                    metadata: FlashCardMetaData::from_fields(
                                        metadata.id,
                                        copy_opt_bytes(&metadata.deck),
                                        metadata.sync,
                                        copy_opt_tags(&metadata.tags),
                                    ),
                                    blank_line: copy_opt_blank_line(blank_line),
                                    flashcard: crate::types::copy_flashcard(flashcard),
                                },
                            )
                        } else {
                            None
                        }
                    },
                    _ => None,
                };
                match ok {
                    Some(b) => Ok(b),
                    None => Err(
                        AppError {
                            block: copy_block(&self.block),
                            response: Some(
                                Response {
                                    result: resp.result,
                                    error: copy_opt_bytes(&resp.error),
                                },
                            ),
                        },
                    ),
                }
            },
        }
    }

    /// Reconciles this block with a response; the same reconciliation as
    /// `block_from_response`, under the name the document pipeline uses.
    pub fn sync_with_anki_response(&self, response: &Option<Response>) -> (r: Result<
        Block,
        AppError,
    >)
        ensures
            match r {
                Ok(b) => spec_reconcile(self.block@, self.anki_action@, opt_response_view(*response))
                    == Some(b@),
                Err(e) => spec_reconcile(
                    self.block@,
                    self.anki_action@,
                    opt_response_view(*response),
                ) is None && e.block@ == self.block@ && opt_response_view(e.response)
                    == opt_response_view(*response),
            },
    {
        self.block_from_response(response)
    }

    /// The outbound request this block's action sends, if any.
    pub fn to_request_payload(&self) -> (r: Option<Request>)
        ensures
            match r {
                Some(req) => crate::anki::spec_request_for(self.anki_action@) == Some(req@),
                None => crate::anki::spec_request_for(self.anki_action@) is None,
            },
    {
        crate::anki::anki_action_to_request_payload(self)
    }
}

} // verus!

verus! {

/// The reconciliation outcome of block `i` in a run of blocks against a run
/// of responses.
pub open spec fn reconcile_at(
    bs: Seq<BlockWithAnkiActionV>,
    rs: Seq<Option<ResponseV>>,
    i: int,
) -> Option<BlockV> {
    spec_reconcile(bs[i].block, bs[i].anki_action, rs[i])
}

/// The reconciled blocks among the first `i`, in order.
pub open spec fn successes_upto(
    bs: Seq<BlockWithAnkiActionV>,
    rs: Seq<Option<ResponseV>>,
    i: int,
) -> Seq<BlockV>
    decreases i,
{
    if i <= 0 {
        Seq::empty()
    } else {
        successes_upto(bs, rs, i - 1) + (match reconcile_at(bs, rs, i - 1) {
            Some(b) => seq![b],
            None => Seq::empty(),
        })
    }
}

/// The failures among the first `i` blocks, in order, each carrying the
/// offending block and response.
pub open spec fn failures_upto(
    bs: Seq<BlockWithAnkiActionV>,
    rs: Seq<Option<ResponseV>>,
    i: int,
) -> Seq<AppErrorV>
    decreases i,
{
    if i <= 0 {
        Seq::empty()
    } else {
        failures_upto(bs, rs, i - 1) + (match reconcile_at(bs, rs, i - 1) {
            Some(_) => Seq::empty(),
            None => seq![AppErrorV { block: bs[i - 1].block, response: rs[i - 1] }],
        })
    }
}

/// Creations among the first `i` blocks that reconciled.
pub open spec fn creates_upto(
    bs: Seq<BlockWithAnkiActionV>,
    rs: Seq<Option<ResponseV>>,
    i: int,
) -> int
    decreases i,
{
    if i <= 0 {
        0
    } else {
        creates_upto(bs, rs, i - 1) + (if reconcile_at(bs, rs, i - 1) is Some && bs[i
            - 1].anki_action is CreateNote {
            1int
        } else {
            0int
        })
    }
}

/// Updates among the first `i` blocks that reconciled.
pub open spec fn updates_upto(
    bs: Seq<BlockWithAnkiActionV>,
    rs: Seq<Option<ResponseV>>,
    i: int,
) -> int
    decreases i,
{
    if i <= 0 {
        0
    } else {
        updates_upto(bs, rs, i - 1) + (if reconcile_at(bs, rs, i - 1) is Some && bs[i
            - 1].anki_action is UpdateNote {
            1int
        } else {
            0int
        })
    }
}

/// The spec-level contents of an error vector.
pub open spec fn errors_view(v: Vec<AppError>) -> Seq<AppErrorV> {
    Seq::new(v@.len(), |i: int| v@[i]@)
}

proof fn lemma_counts_upto_bounds(bs: Seq<BlockWithAnkiActionV>, rs: Seq<Option<ResponseV>>, i: int)
    requires
        i >= 0,
    ensures
        0 <= creates_upto(bs, rs, i) <= i,
        0 <= updates_upto(bs, rs, i) <= i,
        0 <= failures_upto(bs, rs, i).len() <= i,
        0 <= successes_upto(bs, rs, i).len() <= i,
        successes_upto(bs, rs, i).len() + failures_upto(bs, rs, i).len() == i,
    decreases i,
{
    if i > 0 {
        lemma_counts_upto_bounds(bs, rs, i - 1);
    }
}

/// When no block failed, the reconciled sequence is total: block `k`'s
/// entry is exactly its reconciliation outcome.
pub proof fn lemma_all_ok_successes(
    bs: Seq<BlockWithAnkiActionV>,
    rs: Seq<Option<ResponseV>>,
    i: int,
)
    requires
        i >= 0,
        failures_upto(bs, rs, i).len() == 0,
    ensures
        successes_upto(bs, rs, i).len() == i,
        forall|k: int| #![trigger reconcile_at(bs, rs, k)]
            0 <= k < i ==> reconcile_at(bs, rs, k) is Some && successes_upto(bs, rs, i)[k]
                == reconcile_at(bs, rs, k).unwrap(),
    decreases i,
{
    if i > 0 {
        lemma_counts_upto_bounds(bs, rs, i - 1);
        lemma_all_ok_successes(bs, rs, i - 1);
        assert(reconcile_at(bs, rs, i - 1) is Some);
        let prev = successes_upto(bs, rs, i - 1);
        let cur = successes_upto(bs, rs, i);
        assert(cur == prev + seq![reconcile_at(bs, rs, i - 1).unwrap()]);
        assert forall|k: int| #![trigger reconcile_at(bs, rs, k)]
            0 <= k < i implies reconcile_at(bs, rs, k) is Some && successes_upto(bs, rs, i)[k]
                == reconcile_at(bs, rs, k).unwrap() by {
            if k < i - 1 {
                assert(successes_upto(bs, rs, i)[k] == prev[k]);
            }
        }
    }
}

impl MarkdownDocumentWithAnkiActions {
    /// Plans an action for every block of a parsed document.
    pub fn from_document(doc: MarkdownDocument) -> (r: Self)
        ensures
            r@.front_matter == doc@.front_matter,
            r@.blocks_with_anki_action.len() == doc@.blocks.len(),
            forall|i: int|
                0 <= i < doc@.blocks.len() ==> (#[trigger] r@.blocks_with_anki_action[i]).block
                    == doc@.blocks[i] && r@.blocks_with_anki_action[i].anki_action == spec_plan(
                    doc@.blocks[i],
                    doc@.front_matter,
                ),
    {
        let ghost dv = doc@;
        let mut blocks_with_anki_action: Vec<BlockWithAnkiAction> = Vec::new();
        let mut i: usize = 0;
        while i < doc.blocks.len()
            invariant
                0 <= i <= doc.blocks@.len(),
                dv == doc@,
                dv.blocks.len() == doc.blocks@.len(),
                actions_view(blocks_with_anki_action).len() == i,
                forall|k: int|
                    0 <= k < i ==> (#[trigger] actions_view(blocks_with_anki_action)[k]).block
                        == dv.blocks[k] && actions_view(blocks_with_anki_action)[k].anki_action
                        == spec_plan(dv.blocks[k], dv.front_matter),
            decreases doc.blocks@.len() - i,
        {
            let b = copy_block(&doc.blocks[i]);
            let bwa = BlockWithAnkiAction::from_block(b, &doc.front_matter);
            let ghost acc0 = actions_view(blocks_with_anki_action);
            let ghost bwav = bwa@;
            blocks_with_anki_action.push(bwa);
            proof {
                assert(actions_view(blocks_with_anki_action) =~= acc0.push(bwav));
            }
            i = i + 1;
        }
        MarkdownDocumentWithAnkiActions { front_matter: doc.front_matter, blocks_with_anki_action }
    }

    /// Reconciles every block with its response and commits all-or-nothing:
    /// when every block reconciles, the updated document is returned with
    /// the counts of created and updated notes; when any block fails, all
    /// failures are returned, in order, and no document is produced.
    pub fn sync_with_responses(self, responses: &Vec<Option<Response>>) -> (r: Result<
        (MarkdownDocument, u32, u32),
        Vec<AppError>,
    >)
        requires
            responses@.len() == self.blocks_with_anki_action@.len(),
            self.blocks_with_anki_action@.len() <= u32::MAX,
        ensures
            ({
                let bs = self@.blocks_with_anki_action;
                let rs = Seq::new(responses@.len(), |i: int| opt_response_view(responses@[i]));
                let n = bs.len() as int;
                match r {
                    Ok((doc, created, updated)) => failures_upto(bs, rs, n).len() == 0
                        && doc@.front_matter == self@.front_matter && blocks_view(doc.blocks)
                        == successes_upto(bs, rs, n) && created == creates_upto(bs, rs, n)
                        && updated == updates_upto(bs, rs, n),
                    Err(es) => failures_upto(bs, rs, n).len() > 0 && errors_view(es)
                        == failures_upto(bs, rs, n),
                }
            }),
    {
        let ghost bs = self@.blocks_with_anki_action;
        let ghost rs = Seq::new(responses@.len(), |i: int| opt_response_view(responses@[i]));
        let n = self.blocks_with_anki_action.len();
        let mut blocks: Vec<Block> = Vec::new();
        let mut errs: Vec<AppError> = Vec::new();
        let mut created: u32 = 0;
        let mut updated: u32 = 0;
        let mut i: usize = 0;
        while i < n
            invariant
                0 <= i <= n,
                n == self.blocks_with_anki_action@.len(),
                n <= u32::MAX,
                bs == actions_view(self.blocks_with_anki_action),
                bs.len() == n,
                responses@.len() == n,
                rs == Seq::new(responses@.len(), |k: int| opt_response_view(responses@[k])),
                blocks_view(blocks) == successes_upto(bs, rs, i as int),
                errors_view(errs) == failures_upto(bs, rs, i as int),
                created == creates_upto(bs, rs, i as int),
                updated == updates_upto(bs, rs, i as int),
                created <= i,
                updated <= i,
            decreases n - i,
        {
            let bwa = &self.blocks_with_anki_action[i];
            let resp = &responses[i];
            proof {
                assert(bwa@ == bs[i as int]);
                assert(opt_response_view(*resp) == rs[i as int]);
            }
            let ghost blocks0 = blocks_view(blocks);
            let ghost errs0 = errors_view(errs);
            match bwa.block_from_response(resp) {
                Ok(b) => {
                    let ghost bv = b@;
                    match &bwa.anki_action {
                        AnkiAction::CreateNote(_) => {
                            created = created + 1;
                        },
                        AnkiAction::UpdateNote(_) => {
                            updated = updated + 1;
                        },
                        AnkiAction::DoNothing => {},
                    }
                    blocks.push(b);
                    proof {
                        assert(blocks_view(blocks) =~= blocks0.push(bv));
                        assert(blocks_view(blocks) =~= successes_upto(bs, rs, i + 1));
                        assert(errors_view(errs) =~= failures_upto(bs, rs, i + 1));
                    }
                },
                Err(e) => {
                    let ghost ev = e@;
                    errs.push(e);
                    proof {
                        assert(errors_view(errs) =~= errs0.push(ev));
                        assert(errors_view(errs) =~= failures_upto(bs, rs, i + 1));
                        assert(blocks_view(blocks) =~= successes_upto(bs, rs, i + 1));
                    }
                },
            }
            i = i + 1;
        }
        if errs.len() == 0 {
            proof {
                assert(errors_view(errs) =~= Seq::<AppErrorV>::empty());
            }
            Ok((MarkdownDocument { front_matter: self.front_matter, blocks }, created, updated))
        } else {
            Err(errs)
        }
    }
}

} // verus!

verus! {

/// An update is only ever planned for a block whose metadata carries an id,
/// and the planned note carries that id.
pub proof fn lemma_update_action_has_id(b: BlockV, fm: Option<FrontMatterV>)
    ensures
        spec_plan(b, fm) matches AnkiActionV::UpdateNote(n) ==> n.id is Some && (
        b matches BlockV::FlashCardWithMeta { metadata, .. } && metadata.id == n.id),
{
}

} // verus!
