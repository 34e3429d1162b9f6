use twee_v3::escape::escape_string_content;
use twee_v3::TextBlock;

#[test]
fn test_escape_no_backslash_no_allocation() {
    assert_eq!(escape_string_content("plain text, no escapes"), None);
}

#[test]
fn test_escape_decodes_every_backslash() {
    assert_eq!(
        escape_string_content("a\\[b\\]c\\ d"),
        Some("a[b]c d".to_string())
    );
}

#[test]
fn test_escape_double_backslash() {
    assert_eq!(escape_string_content("\\\\"), Some("\\".to_string()));
}

#[test]
fn test_escape_trailing_backslash_kept_as_is() {
    assert_eq!(escape_string_content("ab\\"), None);
}

#[test]
fn test_borrowed_without_backslash_is_zero_copy() {
    let original = "hello world";

    let block = TextBlock::borrowed(original, 0, 5);
    assert_eq!(block, TextBlock::Borrowed { start: 0, end: 5 });
    assert_eq!(block.as_str(original), "hello");
}

#[test]
fn test_borrowed_with_backslash_is_decoded_copy() {
    let original = "say \\[hi\\] now";

    let block = TextBlock::borrowed(original, 4, 10);
    assert_eq!(block, TextBlock::Owned("[hi]".to_string()));
    assert_eq!(block.as_str(original), "[hi]");
}

#[test]
fn test_owned_decodes_exactly_once() {
    let block = TextBlock::owned("double \\\\n".to_string());

    // One decoding pass turns `\\` into `\`; a second pass would have
    // swallowed the `\n` pair as well.
    assert_eq!(block.as_str(""), "double \\n");
}

#[test]
fn test_owned_without_escapes_keeps_value() {
    let block = TextBlock::owned("plain".to_string());
    assert_eq!(block.as_str(""), "plain");
}

#[test]
fn test_as_str_does_not_decode_again() {
    let original = "a\\|b";

    let block = TextBlock::borrowed(original, 0, 4);
    let first = block.as_str(original).to_string();
    let second = block.as_str(original).to_string();
    assert_eq!(first, "a|b");
    assert_eq!(second, "a|b");
}

#[test]
fn test_borrowed_trailing_backslash_stays_zero_copy() {
    let original = "ab\\";

    // The lone trailing backslash does not decode, so the span is unchanged
    // and stays a zero-copy range.
    let block = TextBlock::borrowed(original, 0, 3);
    assert_eq!(block, TextBlock::Borrowed { start: 0, end: 3 });
    assert_eq!(block.as_str(original), "ab\\");
}
