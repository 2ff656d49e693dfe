use notes_to_anki::parser::document::parse_document;
use notes_to_anki::types::Block;

#[test]
fn test_empty_document() {
    let input: &[u8] = b"";
    let (end, doc) = parse_document(input).unwrap();
    assert_eq!(end, 0);
    assert!(doc.front_matter.is_none());
    assert!(doc.blocks.is_empty());
}

#[test]
fn test_front_matter_only() {
    let input: &[u8] = b"---\ntitle: My Notes\n---\n";
    let (end, doc) = parse_document(input).unwrap();
    assert_eq!(end, input.len());
    assert!(doc.front_matter.is_some());
    assert!(doc.blocks.is_empty());
}

#[test]
fn test_single_flashcard() {
    let input: &[u8] = b"## Q: What is Rust?\nA systems programming language.\n";
    let (end, doc) = parse_document(input).unwrap();
    assert_eq!(end, input.len());
    assert!(doc.front_matter.is_none());
    assert_eq!(doc.blocks.len(), 1);
    match &doc.blocks[0] {
        Block::FlashCard(card) => {
            assert_eq!(card.front, b"What is Rust?");
            assert_eq!(card.back, b"A systems programming language.\n");
        }
        _ => panic!("Expected Block::FlashCard"),
    }
}

#[test]
fn test_metadata_flashcard_no_blank_line() {
    let input: &[u8] = b"<!-- anki_id: 123 -->\n## Q: What is Rust?\nA systems programming language.\n";
    let (end, doc) = parse_document(input).unwrap();
    assert_eq!(end, input.len());
    assert_eq!(doc.blocks.len(), 1);
    match &doc.blocks[0] {
        Block::FlashCardWithMeta { metadata, blank_line, flashcard } => {
            assert_eq!(metadata.id, Some(123));
            assert!(blank_line.is_none());
            assert_eq!(flashcard.front, b"What is Rust?");
        }
        _ => panic!("Expected Block::FlashCardWithMeta"),
    }
}

#[test]
fn test_metadata_flashcard_with_blank_line() {
    let input: &[u8] =
        b"<!-- anki_id: 456 -->\n\n## Q: What is Rust?\nA systems programming language.\n";
    let (end, doc) = parse_document(input).unwrap();
    assert_eq!(end, input.len());
    assert_eq!(doc.blocks.len(), 1);
    match &doc.blocks[0] {
        Block::FlashCardWithMeta { metadata, blank_line, flashcard } => {
            assert_eq!(metadata.id, Some(456));
            assert!(blank_line.is_some());
            assert_eq!(blank_line.as_ref().unwrap().raw, b"\n");
            assert_eq!(flashcard.front, b"What is Rust?");
        }
        _ => panic!("Expected Block::FlashCardWithMeta"),
    }
}

#[test]
fn test_mixed_document() {
    let input: &[u8] =
        b"---\nanki_sync:\n  deck: TestDeck\n---\n# Introduction\n\nSome intro text.\n\n<!-- anki_id: 1, anki_sync: true -->\n## Q: What is Rust?\nA systems programming language.\n\n## Q: What is Nom?\nA parser combinator library.\n";
    let (end, doc) = parse_document(input).unwrap();
    assert_eq!(end, input.len());
    assert!(doc.front_matter.is_some());
    assert_eq!(doc.blocks.len(), 3);

    assert!(matches!(&doc.blocks[0], Block::Uninterested(_)));

    match &doc.blocks[1] {
        Block::FlashCardWithMeta { metadata, flashcard, .. } => {
            assert_eq!(metadata.id, Some(1));
            assert_eq!(flashcard.front, b"What is Rust?");
        }
        _ => panic!("Expected Block::FlashCardWithMeta"),
    }

    match &doc.blocks[2] {
        Block::FlashCard(card) => {
            assert_eq!(card.front, b"What is Nom?");
        }
        _ => panic!("Expected Block::FlashCard"),
    }
}

#[test]
fn test_two_flashcards_both_with_metadata() {
    let input: &[u8] =
        b"<!-- anki_id: 100, anki_deck: DeckA -->\n## Q: What is Rust?\nA systems programming language.\n\n<!-- anki_id: 200, anki_deck: DeckB -->\n## Q: What is Nom?\nA parser combinator library.\n";
    let (end, doc) = parse_document(input).unwrap();
    assert_eq!(end, input.len());
    assert_eq!(doc.blocks.len(), 2);

    match &doc.blocks[0] {
        Block::FlashCardWithMeta { metadata, flashcard, .. } => {
            assert_eq!(metadata.id, Some(100));
            assert_eq!(metadata.deck.as_deref(), Some(b"DeckA".as_slice()));
            assert_eq!(flashcard.front, b"What is Rust?");
            assert_eq!(flashcard.back, b"A systems programming language.\n");
        }
        _ => panic!("Expected Block::FlashCardWithMeta for first card"),
    }

    match &doc.blocks[1] {
        Block::FlashCardWithMeta { metadata, flashcard, .. } => {
            assert_eq!(metadata.id, Some(200));
            assert_eq!(metadata.deck.as_deref(), Some(b"DeckB".as_slice()));
            assert_eq!(flashcard.front, b"What is Nom?");
            assert_eq!(flashcard.back, b"A parser combinator library.\n");
        }
        _ => panic!("Expected Block::FlashCardWithMeta for second card"),
    }
}

#[test]
fn test_back_has_no_trailing_newlines_raw_preserves_them() {
    let input: &[u8] =
        b"<!-- anki_id: 100 -->\n## Q: What is Rust?\nA systems programming language.\n\n<!-- anki_id: 200 -->\n## Q: What is Nom?\nA parser combinator library.\n";
    let (end, doc) = parse_document(input).unwrap();
    assert_eq!(end, input.len());
    assert_eq!(doc.blocks.len(), 2);

    match &doc.blocks[0] {
        Block::FlashCardWithMeta { flashcard, .. } => {
            assert_eq!(flashcard.back, b"A systems programming language.\n");
            assert_eq!(
                flashcard.raw,
                b"## Q: What is Rust?\nA systems programming language.\n\n"
            );
        }
        _ => panic!("Expected Block::FlashCardWithMeta for first card"),
    }

    match &doc.blocks[1] {
        Block::FlashCardWithMeta { flashcard, .. } => {
            assert_eq!(flashcard.back, b"A parser combinator library.\n");
            assert_eq!(flashcard.raw, b"## Q: What is Nom?\nA parser combinator library.\n");
        }
        _ => panic!("Expected Block::FlashCardWithMeta for second card"),
    }
}

#[test]
fn test_round_trip() {
    let input: &[u8] =
        b"---\nanki_sync:\n  deck: TestDeck\n---\n# Introduction\n\nSome intro text.\n\n<!-- anki_id: 1, anki_sync: true -->\n## Q: What is Rust?\nA systems programming language.\n\n## Q: What is Nom?\nA parser combinator library.\n";
    let (end, doc) = parse_document(input).unwrap();
    assert_eq!(end, input.len());

    let reconstructed = doc.raw();
    assert_eq!(reconstructed.as_slice(), input);
}

#[test]
fn test_round_trip_with_regular_html_comment() {
    let input: &[u8] =
        b"# Introduction\n\nSome intro text.\n<!-- this is a regular HTML comment -->\nMore text.\n\n<!-- anki_id: 1, anki_sync: true -->\n## Q: What is Rust?\nA systems programming language.\n";
    let (end, doc) = parse_document(input).unwrap();
    assert_eq!(end, input.len());
    assert_eq!(doc.blocks.len(), 2);
    assert!(matches!(&doc.blocks[0], Block::Uninterested(_)));
    assert!(matches!(&doc.blocks[1], Block::FlashCardWithMeta { .. }));

    let reconstructed = doc.raw();
    assert_eq!(reconstructed.as_slice(), input);
}

#[test]
fn test_unterminated_front_matter_fails_document() {
    let input: &[u8] = b"---\nanki_sync:\n  deck: Test\n## Q: A?\nB.\n";
    assert!(parse_document(input).is_none());
}

#[test]
fn test_metadata_without_card_leaves_remainder() {
    let input: &[u8] = b"Some text.\n<!-- anki_id: 9 -->\nNot a header line.\n";
    let (end, doc) = parse_document(input).unwrap();
    assert_eq!(doc.blocks.len(), 1);
    assert!(matches!(&doc.blocks[0], Block::Uninterested(_)));
    assert_eq!(&input[end..], &b"<!-- anki_id: 9 -->\nNot a header line.\n"[..]);
}

#[test]
fn test_round_trip_crlf() {
    let input: &[u8] = b"---\r\nanki_sync:\r\n  deck: D\r\n---\r\n## Q: A?\r\nB.\r\n";
    let (end, doc) = parse_document(input).unwrap();
    assert_eq!(end, input.len());
    match &doc.front_matter {
        Some(notes_to_anki::types::FrontMatter::AnkiSync { deck, .. }) => {
            assert_eq!(deck.as_deref(), Some(b"D".as_slice()));
        }
        _ => panic!("Expected AnkiSync"),
    }
    assert_eq!(doc.raw().as_slice(), input);
}
