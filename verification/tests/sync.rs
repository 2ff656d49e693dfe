use notes_to_anki::anki::{anki_action_to_request_payload, Response};
use notes_to_anki::document_with_anki_actions::{
    AnkiAction, BlockWithAnkiAction, MarkdownDocumentWithAnkiActions,
};
use notes_to_anki::parser::document::parse_document;
use notes_to_anki::types::{Block, BlankLine, FlashCardMetaData};

#[test]
fn test_example_simple_card_parses() {
    let input: &[u8] = b"## Q: What is Rust?\nA language.\n";
    let (end, doc) = parse_document(input).unwrap();
    assert_eq!(end, input.len());
    assert_eq!(doc.blocks.len(), 1);
    match &doc.blocks[0] {
        Block::FlashCard(card) => {
            assert_eq!(card.front, b"What is Rust?");
            assert_eq!(card.back, b"A language.\n");
        }
        _ => panic!("Expected Block::FlashCard"),
    }
}

#[test]
fn test_example_metadata_card_parses() {
    let input: &[u8] = b"<!-- anki_id: 42 -->\n## Q: X?\nY.\n";
    let (end, doc) = parse_document(input).unwrap();
    assert_eq!(end, input.len());
    assert_eq!(doc.blocks.len(), 1);
    match &doc.blocks[0] {
        Block::FlashCardWithMeta { metadata, blank_line, .. } => {
            assert_eq!(metadata.id, Some(42));
            assert!(blank_line.is_none());
        }
        _ => panic!("Expected Block::FlashCardWithMeta"),
    }
}

#[test]
fn test_example_empty_tag_list_rejected() {
    let input: &[u8] = b"<!-- anki_tags: [] -->";
    assert!(
        notes_to_anki::parser::flashcard_metadata::parse_flashcard_metadata(input, 0).is_none()
    );
}

#[test]
fn test_plan_bare_card_creates_with_defaults() {
    let input: &[u8] = b"## Q: What is Rust?\nA language.\n";
    let (_, doc) = parse_document(input).unwrap();
    let fm = doc.front_matter;
    let bwa = BlockWithAnkiAction::from_block(doc.blocks.into_iter().next().unwrap(), &fm);
    match &bwa.anki_action {
        AnkiAction::CreateNote(note) => {
            assert_eq!(note.id, None);
            assert_eq!(note.deck_name, b"Default");
            assert_eq!(note.model_name, b"Basic");
            assert_eq!(note.fields.front, b"What is Rust?");
            assert_eq!(note.fields.back, b"A language.\n");
            assert!(note.tags.is_empty());
        }
        _ => panic!("Expected CreateNote"),
    }
}

#[test]
fn test_plan_uses_front_matter_defaults() {
    let input: &[u8] =
        b"---\nanki_sync:\n  deck: TestDeck\n  tags: [x, y]\n---\n## Q: A?\nB.\n";
    let (_, doc) = parse_document(input).unwrap();
    let fm = doc.front_matter;
    let bwa = BlockWithAnkiAction::from_block(doc.blocks.into_iter().next().unwrap(), &fm);
    match &bwa.anki_action {
        AnkiAction::CreateNote(note) => {
            assert_eq!(note.deck_name, b"TestDeck");
            assert_eq!(note.tags, vec![b"x".to_vec(), b"y".to_vec()]);
        }
        _ => panic!("Expected CreateNote"),
    }
}

#[test]
fn test_plan_metadata_id_updates_and_overrides_deck() {
    let input: &[u8] =
        b"---\nanki_sync:\n  deck: TestDeck\n---\n<!-- anki_id: 9, anki_deck: Mine -->\n## Q: A?\nB.\n";
    let (_, doc) = parse_document(input).unwrap();
    let fm = doc.front_matter;
    let bwa = BlockWithAnkiAction::from_block(doc.blocks.into_iter().next().unwrap(), &fm);
    match &bwa.anki_action {
        AnkiAction::UpdateNote(note) => {
            assert_eq!(note.id, Some(9));
            assert_eq!(note.deck_name, b"Mine");
        }
        _ => panic!("Expected UpdateNote"),
    }
}

#[test]
fn test_plan_sync_false_does_nothing() {
    let input: &[u8] = b"<!-- anki_id: 9, anki_sync: false -->\n## Q: A?\nB.\n";
    let (_, doc) = parse_document(input).unwrap();
    let fm = doc.front_matter;
    let bwa = BlockWithAnkiAction::from_block(doc.blocks.into_iter().next().unwrap(), &fm);
    assert!(matches!(bwa.anki_action, AnkiAction::DoNothing));
}

#[test]
fn test_plan_metadata_without_id_does_nothing() {
    let input: &[u8] = b"<!-- anki_sync: true -->\n## Q: A?\nB.\n";
    let (_, doc) = parse_document(input).unwrap();
    let fm = doc.front_matter;
    let bwa = BlockWithAnkiAction::from_block(doc.blocks.into_iter().next().unwrap(), &fm);
    assert!(matches!(bwa.anki_action, AnkiAction::DoNothing));
}

#[test]
fn test_plan_passthrough_does_nothing() {
    let input: &[u8] = b"Just some prose.\n";
    let (_, doc) = parse_document(input).unwrap();
    let fm = doc.front_matter;
    let bwa = BlockWithAnkiAction::from_block(doc.blocks.into_iter().next().unwrap(), &fm);
    assert!(matches!(bwa.anki_action, AnkiAction::DoNothing));
}

#[test]
fn test_request_payload_names_and_version() {
    let input: &[u8] = b"prose\n\n## Q: A?\nB.\n\n<!-- anki_id: 3 -->\n## Q: C?\nD.\n";
    let (_, doc) = parse_document(input).unwrap();
    let acts = MarkdownDocumentWithAnkiActions::from_document(doc);
    assert!(acts.blocks_with_anki_action[0].to_request_payload().is_none());
    let create_req =
        anki_action_to_request_payload(&acts.blocks_with_anki_action[1]).expect("request");
    assert_eq!(create_req.action, b"addNote");
    assert_eq!(create_req.version, 6);
    assert_eq!(create_req.params.note.id, None);
    let update_req = acts.blocks_with_anki_action[2].to_request_payload().expect("request");
    assert_eq!(update_req.action, b"updateNote");
    assert_eq!(update_req.version, 6);
    assert_eq!(update_req.params.note.id, Some(3));
}

#[test]
fn test_reconcile_create_assigns_id() {
    let input: &[u8] = b"## Q: A?\nB.\n";
    let (_, doc) = parse_document(input).unwrap();
    let acts = MarkdownDocumentWithAnkiActions::from_document(doc);
    let resp = Some(Response { result: Some(7), error: None });
    let block = acts.blocks_with_anki_action[0].block_from_response(&resp).unwrap();
    match block {
        Block::FlashCardWithMeta { metadata, blank_line, flashcard } => {
            assert_eq!(metadata.id, Some(7));
            assert_eq!(metadata.raw, b"<!-- anki_id: 7 -->\n");
            assert_eq!(blank_line.unwrap().raw, b"\n");
            assert_eq!(flashcard.raw, b"## Q: A?\nB.\n");
        }
        _ => panic!("Expected Block::FlashCardWithMeta"),
    }
}

#[test]
fn test_reconcile_create_with_metadata_keeps_fields() {
    let input: &[u8] = b"<!-- anki_sync: true, anki_deck: \"My Deck\" -->\n## Q: A?\nB.\n";
    let (_, doc) = parse_document(input).unwrap();
    // sync true but no id: planned as DoNothing; force a creation pairing to
    // exercise the reconciliation arm the engine uses after a manual create
    let block = doc.blocks.into_iter().next().unwrap();
    let bwa = BlockWithAnkiAction {
        block,
        anki_action: AnkiAction::CreateNote(notes_to_anki::anki::Note {
            id: None,
            deck_name: b"My Deck".to_vec(),
            model_name: b"Basic".to_vec(),
            fields: notes_to_anki::anki::BasicModelFields {
                front: b"A?".to_vec(),
                back: b"B.\n".to_vec(),
            },
            tags: vec![],
        }),
    };
    let resp = Some(Response { result: Some(11), error: None });
    let block = bwa.block_from_response(&resp).unwrap();
    match block {
        Block::FlashCardWithMeta { metadata, .. } => {
            assert_eq!(metadata.id, Some(11));
            assert_eq!(metadata.sync, Some(true));
            assert_eq!(metadata.deck.as_deref(), Some(b"My Deck".as_slice()));
            assert_eq!(
                metadata.raw,
                b"<!-- anki_id: 11, anki_deck: \"My Deck\", anki_sync: true -->\n"
            );
        }
        _ => panic!("Expected Block::FlashCardWithMeta"),
    }
}

#[test]
fn test_reconcile_update_regenerates_raw() {
    let input: &[u8] = b"<!--   anki_id :  5  -->\n## Q: A?\nB.\n";
    let (_, doc) = parse_document(input).unwrap();
    let acts = MarkdownDocumentWithAnkiActions::from_document(doc);
    let resp = Some(Response { result: None, error: None });
    let block = acts.blocks_with_anki_action[0].block_from_response(&resp).unwrap();
    match block {
        Block::FlashCardWithMeta { metadata, .. } => {
            assert_eq!(metadata.id, Some(5));
            assert_eq!(metadata.raw, b"<!-- anki_id: 5 -->\n");
        }
        _ => panic!("Expected Block::FlashCardWithMeta"),
    }
}

#[test]
fn test_reconcile_no_response_leaves_block_unchanged() {
    let input: &[u8] = b"Some prose.\n\nMore prose.\n";
    let (_, doc) = parse_document(input).unwrap();
    let acts = MarkdownDocumentWithAnkiActions::from_document(doc);
    let block = acts.blocks_with_anki_action[0].block_from_response(&None).unwrap();
    match block {
        Block::Uninterested(u) => assert_eq!(u.raw.as_slice(), input),
        _ => panic!("Expected Block::Uninterested"),
    }
}

#[test]
fn test_reconcile_unexpected_response_fails() {
    let input: &[u8] = b"Some prose.\n";
    let (_, doc) = parse_document(input).unwrap();
    let acts = MarkdownDocumentWithAnkiActions::from_document(doc);
    // a response where none was expected is a reconciliation mismatch
    let resp = Some(Response { result: Some(1), error: None });
    let err = acts.blocks_with_anki_action[0].block_from_response(&resp).unwrap_err();
    assert!(matches!(err.block, Block::Uninterested(_)));
    assert_eq!(err.response.unwrap().result, Some(1));
}

#[test]
fn test_reconcile_error_response_fails() {
    let input: &[u8] = b"<!-- anki_id: 5 -->\n## Q: A?\nB.\n";
    let (_, doc) = parse_document(input).unwrap();
    let acts = MarkdownDocumentWithAnkiActions::from_document(doc);
    let resp = Some(Response { result: None, error: Some(b"deck not found".to_vec()) });
    let err = acts.blocks_with_anki_action[0].block_from_response(&resp).unwrap_err();
    assert_eq!(err.response.unwrap().error.as_deref(), Some(b"deck not found".as_slice()));
}

#[test]
fn test_sync_all_ok_commits() {
    let input: &[u8] = b"Intro.\n\n<!-- anki_id: 5 -->\n## Q: A?\nB.\n\n## Q: C?\nD.\n";
    let (end, doc) = parse_document(input).unwrap();
    assert_eq!(end, input.len());
    assert_eq!(doc.blocks.len(), 3);
    let acts = MarkdownDocumentWithAnkiActions::from_document(doc);
    let responses = vec![
        None,
        Some(Response { result: None, error: None }),
        Some(Response { result: Some(7), error: None }),
    ];
    let (synced, created, updated) = acts.sync_with_responses(&responses).unwrap();
    assert_eq!(created, 1);
    assert_eq!(updated, 1);
    assert_eq!(synced.blocks.len(), 3);
    // the do-nothing block is byte-for-byte unchanged
    match &synced.blocks[0] {
        Block::Uninterested(u) => assert_eq!(u.raw, b"Intro.\n\n"),
        _ => panic!("Expected Block::Uninterested"),
    }
    // the created card gained an id and a separating blank line
    match &synced.blocks[2] {
        Block::FlashCardWithMeta { metadata, blank_line, flashcard } => {
            assert_eq!(metadata.raw, b"<!-- anki_id: 7 -->\n");
            assert_eq!(blank_line.as_ref().unwrap().raw, b"\n");
            assert_eq!(flashcard.raw, b"## Q: C?\nD.\n");
        }
        _ => panic!("Expected Block::FlashCardWithMeta"),
    }
}

#[test]
fn test_sync_aborts_when_one_block_fails() {
    let input: &[u8] = b"Intro.\n\n<!-- anki_id: 5 -->\n## Q: A?\nB.\n\n## Q: C?\nD.\n";
    let (_, doc) = parse_document(input).unwrap();
    let acts = MarkdownDocumentWithAnkiActions::from_document(doc);
    let responses = vec![
        None,
        Some(Response { result: None, error: Some(b"deck not found".to_vec()) }),
        Some(Response { result: Some(7), error: None }),
    ];
    let errs = acts.sync_with_responses(&responses).unwrap_err();
    assert_eq!(errs.len(), 1);
    assert_eq!(
        errs[0].response.as_ref().unwrap().error.as_deref(),
        Some(b"deck not found".as_slice())
    );
}

#[test]
fn test_sync_missing_response_for_actionable_block_fails() {
    // a transport failure yields no response; for an actionable block that
    // is a reconciliation mismatch and aborts the sync
    let input: &[u8] = b"<!-- anki_id: 5 -->\n## Q: A?\nB.\n";
    let (_, doc) = parse_document(input).unwrap();
    let acts = MarkdownDocumentWithAnkiActions::from_document(doc);
    let err = acts.blocks_with_anki_action[0].block_from_response(&None).unwrap_err();
    assert!(err.response.is_none());
    let errs = acts.sync_with_responses(&vec![None]).unwrap_err();
    assert_eq!(errs.len(), 1);
}

#[test]
fn test_from_fields_canonical_order_and_quoting() {
    let m = FlashCardMetaData::from_fields(
        Some(1234),
        Some(b"My Deck".to_vec()),
        Some(true),
        Some(vec![b"a".to_vec(), b"b c".to_vec()]),
    );
    assert_eq!(
        m.raw,
        b"<!-- anki_id: 1234, anki_deck: \"My Deck\", anki_sync: true, anki_tags: [a, \"b c\"] -->\n"
    );
    assert_eq!(m.id, Some(1234));
    assert_eq!(m.sync, Some(true));
}

#[test]
fn test_from_fields_omits_absent_fields() {
    let m = FlashCardMetaData::from_fields(Some(0), None, None, None);
    assert_eq!(m.raw, b"<!-- anki_id: 0 -->\n");
    let m = FlashCardMetaData::from_fields(None, Some(b"Deck".to_vec()), Some(false), None);
    assert_eq!(m.raw, b"<!-- anki_deck: Deck, anki_sync: false -->\n");
}

#[test]
fn test_blank_line_empty_is_one_newline() {
    assert_eq!(BlankLine::empty().raw, b"\n");
}

#[test]
fn test_regenerated_metadata_reparses_to_same_fields() {
    let m = FlashCardMetaData::from_fields(
        Some(77),
        Some(b"My Deck".to_vec()),
        Some(true),
        Some(vec![b"t one".to_vec(), b"two".to_vec()]),
    );
    let (end, back) = notes_to_anki::parser::flashcard_metadata::parse_flashcard_metadata(
        m.raw.as_slice(),
        0,
    )
    .expect("Should parse");
    assert_eq!(end, m.raw.len());
    assert_eq!(back.id, Some(77));
    assert_eq!(back.sync, Some(true));
    assert_eq!(back.deck.as_deref(), Some(b"My Deck".as_slice()));
    assert_eq!(back.tags, Some(vec![b"t one".to_vec(), b"two".to_vec()]));
}
