use twee_v3::error::ParsingError;
use twee_v3::parser::passage::{
    find_content_block, parse_link_node, parse_passage, parse_tags, parse_text_node, parse_title,
};
use twee_v3::{ContentNode, Metadata, Passage, Tag};

#[test]
fn passage_test_tags() {
    let input = "[hello tag]";

    assert_eq!(
        parse_tags(input),
        Ok(("", vec![Tag::new("hello"), Tag::new("tag")]))
    );
}

#[test]
fn passage_test_tags_escaped() {
    let input = r"[hello\] tag]";

    assert_eq!(
        parse_tags(input),
        Ok(("", vec![Tag::new(r"hello\]"), Tag::new("tag")]))
    );
}

#[test]
fn passage_test_tags_escaped_and_dash() {
    let input = r"[hello\[-\]tag how-are you]";

    assert_eq!(
        parse_tags(input),
        Ok((
            "",
            vec![
                Tag::new(r"hello\[-\]tag"),
                Tag::new("how-are"),
                Tag::new("you")
            ]
        ))
    );
}

#[test]
fn test_tags_empty_list() {
    assert_eq!(parse_tags("[]"), Ok(("", vec![])));
}

#[test]
fn passage_test_title() {
    let story = ":: Hello, this is a title";

    assert_eq!(parse_title(story), Ok(("", "Hello, this is a title")));
}

#[test]
fn passage_test_title_with_tags() {
    let story = ":: Hello, this is a title [tag1 tag2]";

    assert_eq!(
        parse_title(story),
        Ok((" [tag1 tag2]", "Hello, this is a title"))
    );
}

#[test]
fn passage_test_title_with_metadata() {
    let input = r#":: Hello, this is a title {"position":"600,400","size":"100,200"}"#;

    assert_eq!(
        parse_title(input),
        Ok((
            r#" {"position":"600,400","size":"100,200"}"#,
            "Hello, this is a title"
        ))
    );
}

#[test]
fn passage_test_title_start_with_whitespace() {
    let input = r":: \ Second [tag]";
    assert_eq!(parse_title(input), Ok((r#" [tag]"#, r"\ Second")));
}

#[test]
fn test_title_stops_at_first_bracket() {
    assert_eq!(
        parse_title(":: Hello there [tag]"),
        Ok((" [tag]", "Hello there"))
    );
}

#[test]
fn passage_test_passage() {
    let input = ":: Hello, this is a title [tag1 tag2]\n";

    let expected = Passage::new(
        "Hello, this is a title",
        vec![Tag::new("tag1"), Tag::new("tag2")],
        None,
        vec![],
    );

    assert_eq!(parse_passage(input), Ok(("", expected)));
}

#[test]
fn passage_test_passage_tag_and_metadata() {
    let input =
        ":: Hello, this is a title [tag1 tag2] {\"position\":\"900,600\",\"size\":\"200,200\"}\n";

    let expected = Passage::new(
        "Hello, this is a title",
        vec![Tag::new("tag1"), Tag::new("tag2")],
        Some(Metadata::new(r#"{"position":"900,600","size":"200,200"}"#)),
        vec![],
    );

    assert_eq!(parse_passage(input), Ok(("", expected)));
}

#[test]
fn passage_test_passage_til_next() {
    let input = ":: Some title\nHello\n\n:: Other title";

    let result = parse_passage(input);

    println!("{result:?}");
}

#[test]
fn passage_test_find_content_block() {
    let input = "Hello\n\n:: Other title";

    let result = find_content_block(input);

    assert_eq!(result, Ok(("\n:: Other title", "Hello\n")));
}

#[test]
fn passage_test_parse_text_node() {
    let input = "Hello\nThis is text[[link]]";

    assert_eq!(
        parse_text_node(input),
        Ok(("[[link]]", ContentNode::text_node("Hello\nThis is text")))
    );
}

#[test]
fn passage_test_parse_text_node_escaped_bracket() {
    let input = "Hello\nThis is text\\[[link]]";

    assert_eq!(
        parse_text_node(input),
        Ok(("", ContentNode::text_node(input)))
    );
}

#[test]
fn passage_test_parse_text_node_is_link_node() {
    let input = "[[link]]";

    assert_eq!(parse_text_node(input), Err(ParsingError::Parsing(input)));
}

#[test]
fn passage_test_parse_link_node_simple() {
    let input = "[[link]]";

    assert_eq!(
        parse_link_node(input),
        Ok(("", ContentNode::link_node("link", "link")))
    )
}

#[test]
fn passage_test_parse_link_node_pipe() {
    let input = "[[first|First]]";

    assert_eq!(
        parse_link_node(input),
        Ok(("", ContentNode::link_node("first", "First")))
    )
}

#[test]
fn passage_test_parse_link_node_to_right() {
    let input = "[[some text->First page]]";

    assert_eq!(
        parse_link_node(input),
        Ok(("", ContentNode::link_node("some text", "First page")))
    )
}

#[test]
fn passage_test_parse_link_node_to_left() {
    let input = "[[A page<-going somewhere?]]";

    assert_eq!(
        parse_link_node(input),
        Ok(("", ContentNode::link_node("going somewhere?", "A page")))
    )
}

#[test]
fn test_parse_link_node_unterminated_fails() {
    let input = "[[broken";

    assert_eq!(parse_link_node(input), Err(ParsingError::Parsing(input)));
}

#[test]
fn test_find_content_block_weird_char() {
    let input = "C'est ça\n:: Okay";

    assert_eq!(find_content_block(input), Ok(("\n:: Okay", "C'est ça")));
}

#[test]
fn test_find_content_block_weird_char_end_text() {
    let input = "C'est ça";

    assert_eq!(find_content_block(input), Ok(("", "C'est ça")));
}

#[test]
fn test_parse_passage_weird_char() {
    let input = r#":: Aller au bar {"position":"800,300","size":"100,100"}
Bon, il est toujours possible de rencontrer des inconnus !
Et ça tombe bien, tu connais un PMU juste en bas de chez toi !
La majeur parti de ses clients sont des poivreaux assez sympathiques et ça tombe bien, tu en est également un."#;

    assert!(parse_passage(input).is_ok());
}

#[test]
fn test_parse_passage_content_nodes() {
    let input = ":: Start\nHi [[Next]]\n";

    let (rest, passage) = parse_passage(input).unwrap();
    assert_eq!(rest, "");
    assert_eq!(
        passage.nodes(),
        &vec![
            ContentNode::text_node("Hi "),
            ContentNode::link_node("Next", "Next")
        ]
    );
}

#[test]
fn test_passage_empty_title_fails() {
    let input = ":: \nBody\n";

    assert_eq!(parse_passage(input), Err(ParsingError::Parsing(input)));
}
