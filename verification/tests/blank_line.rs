use notes_to_anki::parser::blank_line::parse_blank_line;

#[test]
fn test_single_empty_line() {
    let input: &[u8] = b"\n";
    let (end, bl) = parse_blank_line(input, 0).unwrap();
    assert_eq!(end, input.len());
    assert_eq!(bl.raw, b"\n");
}

#[test]
fn test_single_whitespace_only_line_with_spaces() {
    let input: &[u8] = b"   \n";
    let (end, bl) = parse_blank_line(input, 0).unwrap();
    assert_eq!(end, input.len());
    assert_eq!(bl.raw, b"   \n");
}

#[test]
fn test_single_whitespace_only_line_with_tab() {
    let input: &[u8] = b"\t\n";
    let (end, bl) = parse_blank_line(input, 0).unwrap();
    assert_eq!(end, input.len());
    assert_eq!(bl.raw, b"\t\n");
}

#[test]
fn test_single_whitespace_only_line_with_mixed_spaces_and_tabs() {
    let input: &[u8] = b"  \t  \n";
    let (end, bl) = parse_blank_line(input, 0).unwrap();
    assert_eq!(end, input.len());
    assert_eq!(bl.raw, b"  \t  \n");
}

#[test]
fn test_multiple_blank_lines() {
    let input: &[u8] = b"\n\n\n";
    let (end, bl) = parse_blank_line(input, 0).unwrap();
    assert_eq!(end, input.len());
    assert_eq!(bl.raw, b"\n\n\n");
}

#[test]
fn test_mixed_empty_and_whitespace_only_lines() {
    let input: &[u8] = b"\n   \n\n";
    let (end, bl) = parse_blank_line(input, 0).unwrap();
    assert_eq!(end, input.len());
    assert_eq!(bl.raw.as_slice(), input);
}

#[test]
fn test_windows_line_endings() {
    let input: &[u8] = b"\r\n";
    let (end, bl) = parse_blank_line(input, 0).unwrap();
    assert_eq!(end, input.len());
    assert_eq!(bl.raw, b"\r\n");
}

#[test]
fn test_stops_before_non_blank_content() {
    let input: &[u8] = b"\n\nsome content\n";
    let (end, bl) = parse_blank_line(input, 0).unwrap();
    assert_eq!(&input[end..], &b"some content\n"[..]);
    assert_eq!(bl.raw, b"\n\n");
}

#[test]
fn test_rejects_non_blank_content() {
    assert!(parse_blank_line(b"some content\n", 0).is_none());
}
