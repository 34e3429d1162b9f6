use twee_v3::error::ParsingError;
use twee_v3::parser::metadata::parse_metadata;
use twee_v3::utils::take_delimited_greedy;
use twee_v3::Metadata;

#[test]
fn metadata_test_take_greedy_simple_metadata() {
    let input = r#"{"position":"900,600","size":"200,200"}"#;

    assert_eq!(take_delimited_greedy('{', '}', input), Ok(("", input)));
}

#[test]
fn metadata_test_take_greedy_escaped_brackets() {
    let input = r#"{"name":"I'm \{ joe","birth":"20 of July"}"#;

    assert_eq!(take_delimited_greedy('{', '}', input), Ok(("", input)));
}

#[test]
fn metadata_test_metadata_reminder() {
    let input = r#"{"position":"900,600","size":"200,200"} and some other stuff"#;

    let expected_metadata = Metadata::new(r#"{"position":"900,600","size":"200,200"}"#);

    assert_eq!(
        parse_metadata(input),
        Ok((" and some other stuff", expected_metadata))
    );
}

#[test]
fn test_take_greedy_nested_balanced() {
    assert_eq!(take_delimited_greedy('{', '}', "{a{b}c}"), Ok(("", "{a{b}c}")));
}

#[test]
fn test_take_greedy_unbalanced_fails() {
    let input = "{a{b}c";

    assert_eq!(
        take_delimited_greedy('{', '}', input),
        Err(ParsingError::Parsing(input))
    );
}

#[test]
fn test_take_greedy_trailing_backslash_fails() {
    let input = "{ab\\";

    assert_eq!(
        take_delimited_greedy('{', '}', input),
        Err(ParsingError::Parsing(input))
    );
}

#[test]
fn test_take_greedy_missing_opener_fails() {
    let input = "no braces here";

    assert_eq!(
        take_delimited_greedy('{', '}', input),
        Err(ParsingError::Parsing(input))
    );
}
