use notes_to_anki::parser::flashcard_metadata::{parse_flashcard_metadata, parse_u64_digits};

#[test]
fn test_parse_u64_digits() {
    let cases = [("1234", 1234u64), ("0", 0u64), ("987654321", 987654321u64)];
    for (input, expected) in cases.iter() {
        let (_, value) = parse_u64_digits(input.as_bytes(), 0).expect("Should parse u64");
        assert_eq!(value, *expected);
    }
}

#[test]
fn test_all_fields() {
    let input: &[u8] = b"<!-- anki_id: 1234, anki_sync: true, anki_deck: hello -->";
    let (end, meta) = parse_flashcard_metadata(input, 0).expect("Should parse");
    assert_eq!(end, input.len());
    assert_eq!(meta.raw.as_slice(), input);
    assert_eq!(meta.id, Some(1234));
    assert_eq!(meta.sync, Some(true));
    assert_eq!(meta.deck.as_deref(), Some(b"hello".as_slice()));
}

#[test]
fn test_different_order() {
    let input: &[u8] = b"<!-- anki_deck: \"My Deck\", anki_id: 42, anki_sync: false -->";
    let (end, meta) = parse_flashcard_metadata(input, 0).expect("Should parse");
    assert_eq!(end, input.len());
    assert_eq!(meta.raw.as_slice(), input);
    assert_eq!(meta.id, Some(42));
    assert_eq!(meta.sync, Some(false));
    assert_eq!(meta.deck.as_deref(), Some(b"My Deck".as_slice()));
}

#[test]
fn test_partial_fields() {
    let input: &[u8] = b"<!-- anki_sync: true -->";
    let (end, meta) = parse_flashcard_metadata(input, 0).expect("Should parse");
    assert_eq!(end, input.len());
    assert_eq!(meta.raw.as_slice(), input);
    assert_eq!(meta.id, None);
    assert_eq!(meta.sync, Some(true));
    assert_eq!(meta.deck, None);
}

#[test]
fn test_extra_whitespace() {
    let input: &[u8] = b"<!--   anki_id :  99 ,  anki_sync :  false   -->";
    let (end, meta) = parse_flashcard_metadata(input, 0).expect("Should parse");
    assert_eq!(end, input.len());
    assert_eq!(meta.raw.as_slice(), input);
    assert_eq!(meta.id, Some(99));
    assert_eq!(meta.sync, Some(false));
}

#[test]
fn test_trailing_input() {
    let input: &[u8] = b"<!-- anki_id: 1 -->some more text";
    let (end, meta) = parse_flashcard_metadata(input, 0).expect("Should parse");
    assert_eq!(end, input.len());
    assert_eq!(meta.raw, b"<!-- anki_id: 1 -->some more text");
    assert_eq!(meta.id, Some(1));
}

#[test]
fn test_trailing_newline() {
    let input: &[u8] = b"<!-- anki_id: 1 -->\nnext line";
    let (end, meta) = parse_flashcard_metadata(input, 0).expect("Should parse");
    assert_eq!(&input[end..], &b"next line"[..]);
    assert_eq!(meta.raw, b"<!-- anki_id: 1 -->\n");
    assert_eq!(meta.id, Some(1));
}

#[test]
fn test_tags_basic() {
    let input: &[u8] = b"<!-- anki_tags: [tag1,tag2,tag3] -->";
    let (end, meta) = parse_flashcard_metadata(input, 0).expect("Should parse");
    assert_eq!(end, input.len());
    assert_eq!(meta.raw.as_slice(), input);
    assert_eq!(
        meta.tags,
        Some(vec![b"tag1".to_vec(), b"tag2".to_vec(), b"tag3".to_vec()])
    );
}

#[test]
fn test_tags_with_quoted_strings() {
    let input: &[u8] = b"<!-- anki_tags: [tag1, \"tag two\", tag3] -->";
    let (end, meta) = parse_flashcard_metadata(input, 0).expect("Should parse");
    assert_eq!(end, input.len());
    assert_eq!(meta.raw.as_slice(), input);
    assert_eq!(
        meta.tags,
        Some(vec![b"tag1".to_vec(), b"tag two".to_vec(), b"tag3".to_vec()])
    );
}

#[test]
fn test_tags_with_extra_whitespace() {
    let input: &[u8] = b"<!-- anki_tags: [  tag1 ,  tag2  ,   tag3  ] -->";
    let (end, meta) = parse_flashcard_metadata(input, 0).expect("Should parse");
    assert_eq!(end, input.len());
    assert_eq!(meta.raw.as_slice(), input);
    assert_eq!(
        meta.tags,
        Some(vec![b"tag1".to_vec(), b"tag2".to_vec(), b"tag3".to_vec()])
    );
}

#[test]
fn test_tags_with_other_fields() {
    let input: &[u8] = b"<!-- anki_id: 5, anki_tags: [foo, \"bar baz\"], anki_sync: true -->";
    let (end, meta) = parse_flashcard_metadata(input, 0).expect("Should parse");
    assert_eq!(end, input.len());
    assert_eq!(meta.raw.as_slice(), input);
    assert_eq!(meta.id, Some(5));
    assert_eq!(meta.sync, Some(true));
    assert_eq!(meta.tags, Some(vec![b"foo".to_vec(), b"bar baz".to_vec()]));
}

#[test]
fn test_tags_empty_list_fails() {
    let input: &[u8] = b"<!-- anki_tags: [] -->";
    assert!(parse_flashcard_metadata(input, 0).is_none());
}

#[test]
fn test_metadata_id_overflow_rejected() {
    let input: &[u8] = b"<!-- anki_id: 99999999999999999999999999 -->";
    assert!(parse_flashcard_metadata(input, 0).is_none());
}

#[test]
fn test_metadata_id_at_u64_max_accepted() {
    let input: &[u8] = b"<!-- anki_id: 18446744073709551615 -->";
    let (_, meta) = parse_flashcard_metadata(input, 0).expect("Should parse");
    assert_eq!(meta.id, Some(u64::MAX));
}

#[test]
fn test_metadata_no_fields_fails() {
    assert!(parse_flashcard_metadata(b"<!--  -->", 0).is_none());
    assert!(parse_flashcard_metadata(b"<!-- this is a regular HTML comment -->", 0).is_none());
}
