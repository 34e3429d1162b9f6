use twee_v3::parser::story::{parse_story, parse_story_data, parse_story_title, StoryData};
use twee_v3::{ContentNode, Story};

const TITLE_AND_DATA: &str =
    ":: StoryTitle\nTest Story\n\n:: StoryData\n{\n\t\"ifid\": \"77599634\",\n\t\"start\": \"Start\"\n}\n";

const SAMPLE: &str = ":: StoryTitle\nTest Story\n\n:: StoryData\n{\n\t\"ifid\": \"77599634\",\n\t\"start\": \"Start\"\n}\n\n:: Start\nYou are at the start. [[Go north->North]] or [[Go south->South]]\n\n:: North\nIt is cold here. [[Back|Start]]\n\n:: South\nIt is warm here. [[Back|Start]]\n\n:: End [final]\nThe end.\n";

#[test]
fn test_parse_story_title() {
    let input = ":: StoryTitle\nTest Story\n\n";

    assert_eq!(parse_story_title(input), Ok(("", "Test Story")))
}

#[test]
fn test_parse_story_title_until_next_dots() {
    let input = ":: StoryTitle\nTest Story\n\n::";

    assert_eq!(parse_story_title(input), Ok(("::", "Test Story")))
}

#[test]
fn test_parse_story_data() {
    let input = ":: StoryData\n{    \"ifid\": \"77599634\",\n    \"start\": \"Start story\"\n}\n\n::";

    assert_eq!(
        parse_story_data(input),
        Ok((
            "::",
            StoryData {
                start: Some("Start story".into())
            }
        ))
    )
}

#[test]
fn test_parse_story_just_title_and_start() {
    let input = TITLE_AND_DATA;

    let (_, story) = parse_story(input).unwrap();

    assert_eq!(Some("Test Story"), story.title());
}

#[test]
fn test_parse_whole_story() {
    let input = SAMPLE;

    let (remaining_input, story) = parse_story(input).unwrap();
    assert_eq!(remaining_input, "");
    assert_eq!(Some("Test Story"), story.title());
    assert_eq!(
        Some(&"Start"),
        story.start().as_ref().map(|passage| passage.title())
    );
    assert_eq!(4, story.passages.len());

    let start = story.get_passage("Start").unwrap();
    assert_eq!(&"Start", start.title());
}

#[test]
fn test_whole_document_end_to_end() {
    let input = ":: StoryTitle\nTest\n\n:: StoryData\n{\"start\":\"Start\"}\n\n:: Start\nHi [[Next]]\n";

    let story = Story::try_from(input).unwrap();
    assert_eq!(story.title(), Some("Test"));
    let start = story.start().unwrap();
    assert_eq!(start.title(), &"Start");
    assert_eq!(
        start.nodes(),
        &vec![
            ContentNode::Text("Hi "),
            ContentNode::Link {
                text: "Next",
                target: "Next"
            }
        ]
    );
}

#[test]
fn test_duplicate_titles_later_wins() {
    let input = ":: A\nfirst\n\n:: A\nsecond\n";

    let story = Story::try_from(input).unwrap();
    assert_eq!(story.passages.len(), 1);
    let passage = story.get_passage("A").unwrap();
    assert_eq!(passage.nodes(), &vec![ContentNode::Text("second")]);
}

#[test]
fn test_duplicate_story_title_later_wins() {
    let input = ":: StoryTitle\nFirst\n\n:: StoryTitle\nSecond\n";

    let story = Story::try_from(input).unwrap();
    assert_eq!(story.title(), Some("Second"));
}

#[test]
fn test_later_story_data_without_start_erases_start() {
    let input =
        ":: StoryData\n{\"start\":\"A\"}\n\n:: StoryData\n{\"ifid\":\"1\"}\n\n:: A\nbody\n";

    let story = Story::try_from(input).unwrap();
    assert!(story.start().is_none());
}

#[test]
fn test_story_data_invalid_json_becomes_passage() {
    let input = ":: StoryData\n{not json}\n";

    let story = Story::try_from(input).unwrap();
    assert!(story.start().is_none());
    assert!(story.get_passage("StoryData").is_some());
}

#[test]
fn test_start_names_missing_passage() {
    let input = ":: StoryData\n{\"start\":\"Nowhere\"}\n\n:: Somewhere\nbody\n";

    let story = Story::try_from(input).unwrap();
    assert!(story.start().is_none());
    assert!(story.get_passage("Somewhere").is_some());
}

#[test]
fn test_unparsable_block_aborts_whole_story() {
    let input = ":: Good\nbody\n\n:: \nbad header\n";

    assert!(Story::try_from(input).is_err());
}

#[test]
fn test_escaped_title_lookup_is_decoded() {
    let input = ":: A\\] title\nbody\n";

    let story = Story::try_from(input).unwrap();
    let passage = story.get_passage("A] title").unwrap();
    assert_eq!(passage.title(), &"A] title");
    assert!(story.get_passage("A\\] title").is_none());
}

#[test]
fn test_story_iter_walks_every_passage() {
    let story = Story::try_from(SAMPLE).unwrap();

    let mut iter = story.iter();
    let mut seen: Vec<String> = Vec::new();
    while let Some(passage) = iter.next() {
        seen.push(passage.title().to_string());
    }
    assert_eq!(seen, vec!["Start", "North", "South", "End"]);
}

#[test]
fn test_passage_links_iterator() {
    let story = Story::try_from(SAMPLE).unwrap();
    let start = story.get_passage("Start").unwrap();

    let mut links = start.links();
    let mut pairs: Vec<(String, String)> = Vec::new();
    while let Some(link) = links.next() {
        pairs.push((link.text.to_string(), link.target.to_string()));
    }
    assert_eq!(
        pairs,
        vec![
            ("Go north".to_string(), "North".to_string()),
            ("Go south".to_string(), "South".to_string())
        ]
    );
}

#[test]
fn test_into_owned_keeps_story() {
    let story = Story::try_from(TITLE_AND_DATA).unwrap();
    let owned = story.into_owned();
    assert_eq!(owned.title(), Some("Test Story"));
}
