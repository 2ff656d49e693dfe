use notes_to_anki::parser::flashcard::{parse_flashcard, parse_header_hashes};

#[test]
fn test_parse_header_hashes_valid() {
    let input: &[u8] = b"# rest";
    assert_eq!(parse_header_hashes(input, 0), Some((1, 1)));
    let input: &[u8] = b"## rest";
    assert_eq!(parse_header_hashes(input, 0), Some((2, 2)));
    let input: &[u8] = b"###### rest";
    assert_eq!(parse_header_hashes(input, 0), Some((6, 6)));
}

#[test]
fn test_parse_header_hashes_too_many() {
    assert!(parse_header_hashes(b"####### rest", 0).is_none());
}

#[test]
fn test_basic_flashcard() {
    let input: &[u8] =
        b"## Q: What is Rust?\nRust is a systems programming language.\nIt focuses on safety and performance.\n";
    let (end, card) = parse_flashcard(input, 0).unwrap();
    assert_eq!(end, input.len());
    assert_eq!(card.front, b"What is Rust?");
    assert_eq!(
        card.back,
        b"Rust is a systems programming language.\nIt focuses on safety and performance.\n"
    );
    assert_eq!(card.raw.as_slice(), input);
}

#[test]
fn test_terminated_by_same_level_header() {
    let input: &[u8] = b"## Q: First question\nAnswer to first.\n## Next header\n";
    let (end, card) = parse_flashcard(input, 0).unwrap();
    assert_eq!(card.front, b"First question");
    assert_eq!(card.back, b"Answer to first.\n");
    assert_eq!(&input[end..], &b"## Next header\n"[..]);
    assert_eq!(card.raw, b"## Q: First question\nAnswer to first.\n");
}

#[test]
fn test_terminated_by_higher_level_header() {
    let input: &[u8] = b"### Q: Deep question\nSome answer.\n## Higher level header\n";
    let (end, card) = parse_flashcard(input, 0).unwrap();
    assert_eq!(card.front, b"Deep question");
    assert_eq!(card.back, b"Some answer.\n");
    assert_eq!(&input[end..], &b"## Higher level header\n"[..]);
}

#[test]
fn test_deeper_headers_included_in_back() {
    let input: &[u8] =
        b"## Q: Question with sub-headers\nSome text.\n### Sub-header\nMore text.\n#### Even deeper\nFinal text.\n";
    let (end, card) = parse_flashcard(input, 0).unwrap();
    assert_eq!(end, input.len());
    assert_eq!(card.front, b"Question with sub-headers");
    assert_eq!(
        card.back,
        b"Some text.\n### Sub-header\nMore text.\n#### Even deeper\nFinal text.\n"
    );
}

#[test]
fn test_empty_back_rejected() {
    let input: &[u8] = b"## Q: Empty answer\n## Next card\n";
    assert!(parse_flashcard(input, 0).is_none());
}

#[test]
fn test_front_at_eof_no_back_rejected() {
    let input: &[u8] = b"## Q: Just a question";
    assert!(parse_flashcard(input, 0).is_none());
}

#[test]
fn test_empty_front_rejected() {
    let input: &[u8] = b"## Q:\nSome back\n";
    assert!(parse_flashcard(input, 0).is_none());
}

#[test]
fn test_whitespace_only_front_rejected() {
    let input: &[u8] = b"## Q: \nSome back\n";
    assert!(parse_flashcard(input, 0).is_none());
}

#[test]
fn test_no_trailing_newline_at_eof() {
    let input: &[u8] = b"## Q: Question\nAnswer without trailing newline";
    let (end, card) = parse_flashcard(input, 0).unwrap();
    assert_eq!(end, input.len());
    assert_eq!(card.front, b"Question");
    assert_eq!(card.back, b"Answer without trailing newline");
    assert_eq!(card.raw.as_slice(), input);
}

#[test]
fn test_q_without_space_after_colon() {
    let input: &[u8] = b"## Q:No space\nBody\n";
    let (end, card) = parse_flashcard(input, 0).unwrap();
    assert_eq!(end, input.len());
    assert_eq!(card.front, b"No space");
    assert_eq!(card.back, b"Body\n");
}

#[test]
fn test_single_hash_header() {
    let input: &[u8] = b"# Q: Top level\nAnswer\n";
    let (end, card) = parse_flashcard(input, 0).unwrap();
    assert_eq!(end, input.len());
    assert_eq!(card.front, b"Top level");
    assert_eq!(card.back, b"Answer\n");
}

#[test]
fn test_non_q_header_rejected() {
    let input: &[u8] = b"## Not a question\nBody\n";
    assert!(parse_flashcard(input, 0).is_none());
}

#[test]
fn test_back_with_interior_blank_lines_preserved() {
    let input: &[u8] =
        b"## Q: Blank lines\nFirst paragraph.\n\nSecond paragraph.\n\nThird paragraph.\n";
    let (end, card) = parse_flashcard(input, 0).unwrap();
    assert_eq!(end, input.len());
    assert_eq!(
        card.back,
        b"First paragraph.\n\nSecond paragraph.\n\nThird paragraph.\n"
    );
}

#[test]
fn test_header_level_above_6_rejected() {
    let input: &[u8] = b"####### Q: Too deep\nBody\n";
    assert!(parse_flashcard(input, 0).is_none());
}

#[test]
fn test_leading_blank_lines_stripped_from_back() {
    let input: &[u8] = b"## Q: Leading blanks\n\n\nActual answer.\n";
    let (end, card) = parse_flashcard(input, 0).unwrap();
    assert_eq!(end, input.len());
    assert_eq!(card.back, b"Actual answer.\n");
    assert_eq!(card.raw.as_slice(), input);
}

#[test]
fn test_trailing_blank_lines_stripped_from_back() {
    let input: &[u8] = b"## Q: Trailing blanks\nActual answer.\n\n\n";
    let (end, card) = parse_flashcard(input, 0).unwrap();
    assert_eq!(end, input.len());
    assert_eq!(card.back, b"Actual answer.\n");
    assert_eq!(card.raw.as_slice(), input);
}

#[test]
fn test_leading_and_trailing_blank_lines_stripped_interior_preserved() {
    let input: &[u8] = b"## Q: Both ends trimmed\n\nFirst paragraph.\n\nSecond paragraph.\n\n";
    let (end, card) = parse_flashcard(input, 0).unwrap();
    assert_eq!(end, input.len());
    assert_eq!(card.back, b"First paragraph.\n\nSecond paragraph.\n");
    assert_eq!(card.raw.as_slice(), input);
}

#[test]
fn test_back_with_only_blank_lines_rejected() {
    let input: &[u8] = b"## Q: Blank back\n\n\n\n## Next header\n";
    assert!(parse_flashcard(input, 0).is_none());
}

#[test]
fn test_crlf_line_endings_preserved() {
    let input: &[u8] = b"## Q: Endings?\r\nAnswer line.\r\n";
    let (end, card) = parse_flashcard(input, 0).unwrap();
    assert_eq!(end, input.len());
    assert_eq!(card.front, b"Endings?");
    assert_eq!(card.back, b"Answer line.\r\n");
    assert_eq!(card.raw.as_slice(), input);
}
