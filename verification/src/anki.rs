//! The note service's wire-level data model and the mapping from a planned
//! action to an outbound request. The actual JSON encoding and transport
//! live outside the library; these types carry the exact field values that
//! the wire messages hold.

use crate::document_with_anki_actions::{AnkiAction, AnkiActionV, BlockWithAnkiAction};
use crate::types::copy_tag_list;
use vstd::prelude::*;

verus! {

/// A note as the service expects it: an optional id (present for updates),
/// a deck name, the model name (always `Basic`), the two fields, and tags.
#[derive(Debug, Clone, PartialEq, Eq)]
pub struct Note {
    pub id: Option<u64>,
    pub deck_name: Vec<u8>,
    pub model_name: Vec<u8>,
    pub fields: BasicModelFields,
    pub tags: Vec<Vec<u8>>,
}

pub struct NoteV {
    pub id: Option<u64>,
    pub deck_name: Seq<u8>,
    pub model_name: Seq<u8>,
    pub fields: BasicModelFieldsV,
    pub tags: Seq<Seq<u8>>,
}

impl View for Note {
    type V = NoteV;

    open spec fn view(&self) -> NoteV {
        NoteV {
            id: self.id,
            deck_name: self.deck_name@,
            model_name: self.model_name@,
            fields: self.fields@,
            tags: self.tags.deep_view(),
        }
    }
}

#[derive(Debug, Clone, PartialEq, Eq)]
pub struct BasicModelFields {
    pub front: Vec<u8>,
    pub back: Vec<u8>,
}

pub struct BasicModelFieldsV {
    pub front: Seq<u8>,
    pub back: Seq<u8>,
}

impl View for BasicModelFields {
    type V = BasicModelFieldsV;

    open spec fn view(&self) -> BasicModelFieldsV {
        BasicModelFieldsV { front: self.front@, back: self.back@ }
    }
}

#[derive(Debug, PartialEq, Eq)]
pub struct Params {
    pub note: Note,
}

pub struct ParamsV {
    pub note: NoteV,
}

impl View for Params {
    type V = ParamsV;

    open spec fn view(&self) -> ParamsV {
        ParamsV { note: self.note@ }
    }
}

/// An outbound request: the action name (`addNote` or `updateNote`), the
/// protocol version (always 6), and the note.
#[derive(Debug, PartialEq, Eq)]
pub struct Request {
    pub action: Vec<u8>,
    pub version: u64,
    pub params: Params,
}

pub struct RequestV {
    pub action: Seq<u8>,
    pub version: u64,
    pub params: ParamsV,
}

impl View for Request {
    type V = RequestV;

    open spec fn view(&self) -> RequestV {
        RequestV { action: self.action@, version: self.version, params: self.params@ }
    }
}

/// An inbound response: a numeric result or null, and an error message or
/// null.
#[derive(Debug, Clone, PartialEq, Eq)]
pub struct Response {
    pub result: Option<u64>,
    pub error: Option<Vec<u8>>,
}

pub struct ResponseV {
    pub result: Option<u64>,
    pub error: Option<Seq<u8>>,
}

impl View for Response {
    type V = ResponseV;

    open spec fn view(&self) -> ResponseV {
        ResponseV {
            result: self.result,
            error: match self.error {
                Some(e) => Some(e@),
                None => None,
            },
        }
    }
}

pub open spec fn kw_add_note() -> Seq<u8> {
    seq!['a' as u8, 'd' as u8, 'd' as u8, 'N' as u8, 'o' as u8, 't' as u8, 'e' as u8]
}

pub open spec fn kw_update_note() -> Seq<u8> {
    seq![
        'u' as u8,
        'p' as u8,
        'd' as u8,
        'a' as u8,
        't' as u8,
        'e' as u8,
        'N' as u8,
        'o' as u8,
        't' as u8,
        'e' as u8,
    ]
}

/// The request an action maps to: `addNote` for a creation, `updateNote`
/// for an update, none for `DoNothing`; always protocol version 6, carrying
/// the action's note unchanged.
pub open spec fn spec_request_for(action: AnkiActionV) -> Option<RequestV> {
    match action {
        AnkiActionV::CreateNote(n) => Some(
            RequestV { action: kw_add_note(), version: 6, params: ParamsV { note: n } },
        ),
        AnkiActionV::UpdateNote(n) => Some(
            RequestV { action: kw_update_note(), version: 6, params: ParamsV { note: n } },
        ),
        AnkiActionV::DoNothing => None,
    }
}

/// Copies a note.
pub fn copy_note(n: &Note) -> (r: Note)
    ensures
        r@ == n@,
{
    let r = Note {
        id: n.id,
        deck_name: crate::text::copy_bytes(&n.deck_name),
        model_name: crate::text::copy_bytes(&n.model_name),
        fields: BasicModelFields {
            front: crate::text::copy_bytes(&n.fields.front),
            back: crate::text::copy_bytes(&n.fields.back),
        },
        tags: copy_tag_list(&n.tags),
    };
    proof {
        assert(r@.tags =~= n@.tags);
    }
    r
}

fn arr_add_note() -> (r: [u8; 7])
    ensures
        r@ == kw_add_note(),
{
    let a = ['a' as u8, 'd' as u8, 'd' as u8, 'N' as u8, 'o' as u8, 't' as u8, 'e' as u8];
    proof {
        assert(a@ =~= kw_add_note());
    }
    a
}

fn arr_update_note() -> (r: [u8; 10])
    ensures
        r@ == kw_update_note(),
{
    let a = [
        'u' as u8,
        'p' as u8,
        'd' as u8,
        'a' as u8,
        't' as u8,
        'e' as u8,
        'N' as u8,
        'o' as u8,
        't' as u8,
        'e' as u8,
    ];
    proof {
        assert(a@ =~= kw_update_note());
    }
    a
}

/// The outbound request for a planned action, if the action sends one.
pub fn anki_action_to_request_payload(action: &BlockWithAnkiAction) -> (r: Option<Request>)
    ensures
        match r {
            Some(req) => spec_request_for(action.anki_action@) == Some(req@),
            None => spec_request_for(action.anki_action@) is None,
        },
{
    match &action.anki_action {
        AnkiAction::CreateNote(note) => {
            let a = arr_add_note();
            Some(
                Request {
                    action: vstd::slice::slice_to_vec(a.as_slice()),
                    version: 6,
                    params: Params { note: copy_note(note) },
                },
            )
        },
        AnkiAction::UpdateNote(note) => {
            let a = arr_update_note();
            Some(
                Request {
                    action: vstd::slice::slice_to_vec(a.as_slice()),
                    version: 6,
                    params: Params { note: copy_note(note) },
                },
            )
        },
        AnkiAction::DoNothing => None,
    }
}

} // verus!
