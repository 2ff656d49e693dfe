use notes_to_anki::parser::front_matter::parse_front_matter;
use notes_to_anki::types::FrontMatter;

#[test]
fn test_deck_and_flow_tags() {
    let input: &[u8] = b"---\nanki_sync:\n  deck: My Deck Name\n  tags: [tag1, tag2]\n---\nrest\n";
    let (end, fm) = parse_front_matter(input, 0).unwrap();
    assert_eq!(&input[end..], &b"rest\n"[..]);
    match fm {
        FrontMatter::AnkiSync { deck, tags, .. } => {
            assert_eq!(deck.as_deref(), Some(b"My Deck Name".as_slice()));
            assert_eq!(tags, vec![b"tag1".to_vec(), b"tag2".to_vec()]);
        }
        _ => panic!("Expected AnkiSync"),
    }
}

#[test]
fn test_deck_and_block_tags() {
    let input: &[u8] =
        b"---\nanki_sync:\n  deck: My Deck Name\n  tags:\n    - tag1\n    - tag2\n---\nrest\n";
    let (end, fm) = parse_front_matter(input, 0).unwrap();
    assert_eq!(&input[end..], &b"rest\n"[..]);
    match fm {
        FrontMatter::AnkiSync { deck, tags, .. } => {
            assert_eq!(deck.as_deref(), Some(b"My Deck Name".as_slice()));
            assert_eq!(tags, vec![b"tag1".to_vec(), b"tag2".to_vec()]);
        }
        _ => panic!("Expected AnkiSync"),
    }
}

#[test]
fn test_only_deck_no_tags() {
    let input: &[u8] = b"---\nanki_sync:\n  deck: MyDeck\n---\n";
    let (end, fm) = parse_front_matter(input, 0).unwrap();
    assert_eq!(end, input.len());
    match fm {
        FrontMatter::AnkiSync { deck, tags, .. } => {
            assert_eq!(deck.as_deref(), Some(b"MyDeck".as_slice()));
            assert!(tags.is_empty());
        }
        _ => panic!("Expected AnkiSync"),
    }
}

#[test]
fn test_only_flow_tags_no_deck() {
    let input: &[u8] = b"---\nanki_sync:\n  tags: [tag1, tag2]\n---\n";
    let (end, fm) = parse_front_matter(input, 0).unwrap();
    assert_eq!(end, input.len());
    match fm {
        FrontMatter::AnkiSync { deck, tags, .. } => {
            assert_eq!(deck, None);
            assert_eq!(tags, vec![b"tag1".to_vec(), b"tag2".to_vec()]);
        }
        _ => panic!("Expected AnkiSync"),
    }
}

#[test]
fn test_only_block_tags_no_deck() {
    let input: &[u8] = b"---\nanki_sync:\n  tags:\n    - alpha\n    - beta\n---\n";
    let (end, fm) = parse_front_matter(input, 0).unwrap();
    assert_eq!(end, input.len());
    match fm {
        FrontMatter::AnkiSync { deck, tags, .. } => {
            assert_eq!(deck, None);
            assert_eq!(tags, vec![b"alpha".to_vec(), b"beta".to_vec()]);
        }
        _ => panic!("Expected AnkiSync"),
    }
}

#[test]
fn test_deck_with_spaces() {
    let input: &[u8] = b"---\nanki_sync:\n  deck: My Long Deck Name With Spaces\n---\n";
    let (_, fm) = parse_front_matter(input, 0).unwrap();
    match fm {
        FrontMatter::AnkiSync { deck, .. } => {
            assert_eq!(deck.as_deref(), Some(b"My Long Deck Name With Spaces".as_slice()));
        }
        _ => panic!("Expected AnkiSync"),
    }
}

#[test]
fn test_tags_with_quoted_strings_flow() {
    let input: &[u8] = b"---\nanki_sync:\n  tags: [tag1, \"tag two\", tag3]\n---\n";
    let (_, fm) = parse_front_matter(input, 0).unwrap();
    match fm {
        FrontMatter::AnkiSync { tags, .. } => {
            assert_eq!(tags, vec![b"tag1".to_vec(), b"tag two".to_vec(), b"tag3".to_vec()]);
        }
        _ => panic!("Expected AnkiSync"),
    }
}

#[test]
fn test_tags_with_quoted_strings_block() {
    let input: &[u8] = b"---\nanki_sync:\n  tags:\n    - tag1\n    - \"tag two\"\n    - tag3\n---\n";
    let (_, fm) = parse_front_matter(input, 0).unwrap();
    match fm {
        FrontMatter::AnkiSync { tags, .. } => {
            assert_eq!(tags, vec![b"tag1".to_vec(), b"tag two".to_vec(), b"tag3".to_vec()]);
        }
        _ => panic!("Expected AnkiSync"),
    }
}

#[test]
fn test_unknown_keys_before_and_after() {
    let input: &[u8] =
        b"---\ntitle: My Notes\nauthor: Someone\nanki_sync:\n  deck: TestDeck\n  tags: [a, b]\nother_key: value\n---\n";
    let (_, fm) = parse_front_matter(input, 0).unwrap();
    match fm {
        FrontMatter::AnkiSync { deck, tags, .. } => {
            assert_eq!(deck.as_deref(), Some(b"TestDeck".as_slice()));
            assert_eq!(tags, vec![b"a".to_vec(), b"b".to_vec()]);
        }
        _ => panic!("Expected AnkiSync"),
    }
}

#[test]
fn test_empty_front_matter_is_raw() {
    let input: &[u8] = b"---\n---\n";
    let (end, fm) = parse_front_matter(input, 0).unwrap();
    assert_eq!(end, input.len());
    match fm {
        FrontMatter::Raw { .. } => {}
        _ => panic!("Expected Raw"),
    }
}

#[test]
fn test_no_anki_sync_block_is_raw() {
    let input: &[u8] = b"---\ntitle: My Document\nauthor: Someone\n---\n";
    let (_, fm) = parse_front_matter(input, 0).unwrap();
    match fm {
        FrontMatter::Raw { .. } => {}
        _ => panic!("Expected Raw"),
    }
}

#[test]
fn test_anki_sync_with_no_deck_or_tags_is_raw() {
    let input: &[u8] = b"---\nanki_sync:\n---\n";
    let (_, fm) = parse_front_matter(input, 0).unwrap();
    match fm {
        FrontMatter::Raw { .. } => {}
        _ => panic!("Expected Raw"),
    }
}

#[test]
fn test_raw_content_preservation() {
    let input: &[u8] = b"---\nanki_sync:\n  deck: MyDeck\n---\nbody\n";
    let (_, fm) = parse_front_matter(input, 0).unwrap();
    let expected_raw: &[u8] = b"---\nanki_sync:\n  deck: MyDeck\n---\n";
    match fm {
        FrontMatter::AnkiSync { raw, .. } => {
            assert_eq!(raw.as_slice(), expected_raw);
        }
        _ => panic!("Expected AnkiSync"),
    }
}

#[test]
fn test_remaining_input_returned() {
    let input: &[u8] = b"---\nanki_sync:\n  deck: Test\n---\n# Q: What is this?\nAn answer.\n";
    let (end, _) = parse_front_matter(input, 0).unwrap();
    assert_eq!(&input[end..], &b"# Q: What is this?\nAn answer.\n"[..]);
}

#[test]
fn test_missing_closing_delimiter_fails() {
    let input: &[u8] = b"---\nanki_sync:\n  deck: Test\n";
    assert!(parse_front_matter(input, 0).is_none());
}

#[test]
fn test_unknown_key_with_indented_children_skipped() {
    let input: &[u8] =
        b"---\nnested_thing:\n  child1: value\n  child2: value\nanki_sync:\n  deck: Found\n---\n";
    let (_, fm) = parse_front_matter(input, 0).unwrap();
    match fm {
        FrontMatter::AnkiSync { deck, .. } => {
            assert_eq!(deck.as_deref(), Some(b"Found".as_slice()));
        }
        _ => panic!("Expected AnkiSync"),
    }
}

#[test]
fn test_quoted_deck_value_strips_quotes() {
    let input: &[u8] = b"---\nanki_sync:\n  deck: \"My Deck\"\n---\n";
    let (_, fm) = parse_front_matter(input, 0).unwrap();
    match fm {
        FrontMatter::AnkiSync { deck, .. } => {
            assert_eq!(deck.as_deref(), Some(b"My Deck".as_slice()));
        }
        _ => panic!("Expected AnkiSync"),
    }
}

#[test]
fn test_repeated_deck_last_occurrence_wins() {
    let input: &[u8] = b"---\nanki_sync:\n  deck: First\n  deck: Second\n---\n";
    let (_, fm) = parse_front_matter(input, 0).unwrap();
    match fm {
        FrontMatter::AnkiSync { deck, .. } => {
            assert_eq!(deck.as_deref(), Some(b"Second".as_slice()));
        }
        _ => panic!("Expected AnkiSync"),
    }
}
