use twee_v3::error::ParsingError;
use twee_v3::utils::{split_escaped, until_link1};

#[test]
fn test_until_link1() {
    let input = "This is a dog";

    assert_eq!(until_link1(input), Ok(("", "This is a dog")));
}

#[test]
fn test_until_link1_has_brackets() {
    let input = "This is a dog [[bob";

    assert_eq!(until_link1(input), Ok(("[[bob", "This is a dog ")));
}

#[test]
fn test_until_link1_has_escaped_brackets() {
    let input = "This is a dog \\[[bob";

    assert_eq!(until_link1(input), Ok(("", "This is a dog \\[[bob")));
}

#[test]
fn test_until_link1_start_with_link() {
    let input = "[[link]]";

    assert_eq!(until_link1(input), Err(ParsingError::Parsing(input)));
}

#[test]
fn test_split_escaped() {
    let input = "hello->I'm happy";

    assert_eq!(split_escaped(input, "->"), Some(("hello", "I'm happy")));
}

#[test]
fn test_split_escaped_no_match() {
    let input = "hello->I'm happy";

    assert_eq!(split_escaped(input, "|"), None);
}

#[test]
fn test_split_escaped_actually_escaped() {
    let input = "hello\\->I'm happy";

    assert_eq!(split_escaped(input, "->"), None);
}

#[test]
fn test_split_escaped_actually_escaped_proper_skip() {
    let input = "hello\\--I'm happy";

    assert_eq!(split_escaped(input, "-"), Some(("hello\\-", "I'm happy")));
}

#[test]
fn test_split_escaped_long_separator() {
    let input = "left<-right";

    assert_eq!(split_escaped(input, "<-"), Some(("left", "right")));
}
