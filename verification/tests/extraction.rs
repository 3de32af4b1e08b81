use scraper::{Html, Selector};
use twine_inspect::twine::{
    ExtractError, Field, PassageData, PassageSource, Story, StorySource,
};

fn text(value: &str) -> Option<String> {
    Some(value.to_string())
}

fn passage_source(pid: &str, name: &str, content: &str) -> PassageSource {
    PassageSource {
        pid: text(pid),
        name: text(name),
        position: text("0,0"),
        size: text("100,100"),
        text: content.to_string(),
    }
}

fn story_source(passages: Vec<PassageSource>) -> StorySource {
    StorySource {
        name: text("Demo"),
        start_node: text("1"),
        format: text("Harlowe"),
        passages,
    }
}

const DEMO: &str = "<html><head><title>Demo</title></head><body>\
<tw-storydata name=\"Demo\" startnode=\"1\" format=\"Harlowe\" hidden>\
<tw-passagedata pid=\"1\" name=\"Start\" position=\"0,0\" size=\"100,100\">Go to &lt;img src=\"x.png\"/&gt;</tw-passagedata>\
<tw-passagedata pid=\"2\" name=\"End\" position=\"50,50\" size=\"100,100\">The end.</tw-passagedata>\
</tw-storydata></body></html>";

#[test]
fn demo_document_gives_its_story() {
    let story = Story::from_html(&Html::parse_document(DEMO)).unwrap();
    assert_eq!(story.name, "Demo");
    assert_eq!(story.start_node, "1");
    assert_eq!(story.format, "Harlowe");
    assert_eq!(story.passages.len(), 2);
    assert_eq!(
        story.passages[0],
        PassageData {
            pid: "1".to_string(),
            name: "Start".to_string(),
            position: "0,0".to_string(),
            size: "100,100".to_string(),
            content: "Go to <img src=\"x.png\"/>".to_string(),
        }
    );
    assert_eq!(
        story.passages[1],
        PassageData {
            pid: "2".to_string(),
            name: "End".to_string(),
            position: "50,50".to_string(),
            size: "100,100".to_string(),
            content: "The end.".to_string(),
        }
    );
}

#[test]
fn passages_come_in_document_order() {
    let mut document = String::from("<tw-storydata name=\"Many\" startnode=\"3\" format=\"SugarCube\">");
    for pid in [7, 3, 9, 1, 4] {
        document.push_str(&format!(
            "<tw-passagedata pid=\"{pid}\" name=\"P{pid}\" position=\"{pid},{pid}\" size=\"1,1\">text {pid}</tw-passagedata>"
        ));
    }
    document.push_str("</tw-storydata>");
    let story = Story::from_html(&Html::parse_document(&document)).unwrap();
    let pids: Vec<&str> = story.passages.iter().map(|p| p.pid.as_str()).collect();
    assert_eq!(pids, vec!["7", "3", "9", "1", "4"]);
    let contents: Vec<&str> = story.passages.iter().map(|p| p.content.as_str()).collect();
    assert_eq!(contents, vec!["text 7", "text 3", "text 9", "text 1", "text 4"]);
    assert_eq!(story.start_node, "3");
}

#[test]
fn story_without_passages_is_a_story() {
    let document = "<tw-storydata name=\"Empty\" startnode=\"1\" format=\"Snowman\"></tw-storydata>";
    let story = Story::from_html(&Html::parse_document(document)).unwrap();
    assert_eq!(story.name, "Empty");
    assert_eq!(story.passages.len(), 0);
}

#[test]
fn attributes_are_taken_as_they_are() {
    let document = "<tw-storydata name=\"  Two  Spaces \" startnode=\" 1\" format=\"\">\
<tw-passagedata pid=\" 01 \" name=\"Caf\u{e9} \u{2603}\" position=\"\" size=\"A,b\"></tw-passagedata>\
</tw-storydata>";
    let story = Story::from_html(&Html::parse_document(document)).unwrap();
    assert_eq!(story.name, "  Two  Spaces ");
    assert_eq!(story.start_node, " 1");
    assert_eq!(story.format, "");
    assert_eq!(story.passages[0].pid, " 01 ");
    assert_eq!(story.passages[0].name, "Caf\u{e9} \u{2603}");
    assert_eq!(story.passages[0].position, "");
    assert_eq!(story.passages[0].size, "A,b");
    assert_eq!(story.passages[0].content, "");
}

#[test]
fn content_joins_the_text_below_the_element() {
    let document = "<tw-storydata name=\"N\" startnode=\"1\" format=\"F\">\
<tw-passagedata pid=\"1\" name=\"A\" position=\"0,0\" size=\"1,1\">one\n<b>two</b>\n  three<i> <u>four</u></i></tw-passagedata>\
</tw-storydata>";
    let story = Story::from_html(&Html::parse_document(document)).unwrap();
    assert_eq!(story.passages[0].content, "one\ntwo\n  three four");
}

#[test]
fn document_without_story_element_fails() {
    let html = Html::parse_document("<html><body><p>No story here.</p></body></html>");
    assert_eq!(Story::from_html(&html), Err(ExtractError::MissingContainer));
    assert_eq!(
        Story::from_html(&Html::parse_document("")),
        Err(ExtractError::MissingContainer)
    );
}

#[test]
fn passage_outside_a_story_element_is_no_story() {
    let document = "<tw-passagedata pid=\"1\" name=\"A\" position=\"0,0\" size=\"1,1\">x</tw-passagedata>";
    assert_eq!(
        Story::from_html(&Html::parse_document(document)),
        Err(ExtractError::MissingContainer)
    );
}

#[test]
fn document_with_two_story_elements_fails() {
    let document = "<tw-storydata name=\"A\" startnode=\"1\" format=\"F\"></tw-storydata>\
<tw-storydata name=\"B\" startnode=\"1\" format=\"F\"></tw-storydata>";
    assert_eq!(
        Story::from_html(&Html::parse_document(document)),
        Err(ExtractError::AmbiguousContainer)
    );
}

fn document_with_passage(attributes: &str) -> String {
    format!(
        "<tw-storydata name=\"N\" startnode=\"1\" format=\"F\">\
<tw-passagedata pid=\"1\" name=\"First\" position=\"0,0\" size=\"1,1\">ok</tw-passagedata>\
<tw-passagedata {attributes}>broken</tw-passagedata>\
<tw-passagedata pid=\"3\" name=\"Third\" position=\"0,0\" size=\"1,1\">ok</tw-passagedata>\
</tw-storydata>"
    )
}

fn outcome_of(document: &str) -> Result<Story, ExtractError> {
    Story::from_html(&Html::parse_document(document))
}

#[test]
fn passage_without_pid_fails_the_document() {
    let document = document_with_passage("name=\"B\" position=\"0,0\" size=\"1,1\"");
    assert_eq!(
        outcome_of(&document),
        Err(ExtractError::MissingAttribute { field: Field::Pid, passage: Some(1) })
    );
}

#[test]
fn passage_without_name_fails_the_document() {
    let document = document_with_passage("pid=\"2\" position=\"0,0\" size=\"1,1\"");
    assert_eq!(
        outcome_of(&document),
        Err(ExtractError::MissingAttribute { field: Field::PassageName, passage: Some(1) })
    );
}

#[test]
fn passage_without_position_fails_the_document() {
    let document = document_with_passage("pid=\"2\" name=\"B\" size=\"1,1\"");
    assert_eq!(
        outcome_of(&document),
        Err(ExtractError::MissingAttribute { field: Field::Position, passage: Some(1) })
    );
}

#[test]
fn passage_without_size_fails_the_document() {
    let document = document_with_passage("pid=\"2\" name=\"B\" position=\"0,0\"");
    assert_eq!(
        outcome_of(&document),
        Err(ExtractError::MissingAttribute { field: Field::Size, passage: Some(1) })
    );
}

#[test]
fn first_missing_attribute_of_first_broken_passage_is_reported() {
    let document = "<tw-storydata name=\"N\" startnode=\"1\" format=\"F\">\
<tw-passagedata pid=\"1\" name=\"A\">x</tw-passagedata>\
<tw-passagedata>y</tw-passagedata>\
</tw-storydata>";
    assert_eq!(
        outcome_of(document),
        Err(ExtractError::MissingAttribute { field: Field::Position, passage: Some(0) })
    );
}

#[test]
fn story_without_name_fails() {
    let document = "<tw-storydata startnode=\"1\" format=\"F\"></tw-storydata>";
    assert_eq!(
        outcome_of(document),
        Err(ExtractError::MissingAttribute { field: Field::StoryName, passage: None })
    );
}

#[test]
fn story_without_startnode_fails() {
    let document = "<tw-storydata name=\"N\" format=\"F\"></tw-storydata>";
    assert_eq!(
        outcome_of(document),
        Err(ExtractError::MissingAttribute { field: Field::StartNode, passage: None })
    );
}

#[test]
fn story_without_format_fails() {
    let document = "<tw-storydata name=\"N\" startnode=\"1\"></tw-storydata>";
    assert_eq!(
        outcome_of(document),
        Err(ExtractError::MissingAttribute { field: Field::Format, passage: None })
    );
}

#[test]
fn story_attribute_is_reported_before_a_passage_attribute() {
    let document = "<tw-storydata name=\"N\" startnode=\"1\">\
<tw-passagedata name=\"A\" position=\"0,0\" size=\"1,1\">x</tw-passagedata>\
</tw-storydata>";
    assert_eq!(
        outcome_of(document),
        Err(ExtractError::MissingAttribute { field: Field::Format, passage: None })
    );
}

#[test]
fn extraction_is_repeatable() {
    let html = Html::parse_document(DEMO);
    let first = Story::from_html(&html);
    let second = Story::from_html(&html);
    assert!(first.is_ok());
    assert_eq!(first, second);

    let broken = Html::parse_document(&document_with_passage("pid=\"2\""));
    assert_eq!(Story::from_html(&broken), Story::from_html(&broken));
    assert!(Story::from_html(&broken).is_err());
}

#[test]
fn read_all_holds_what_the_elements_hold() {
    let document = "<tw-storydata name=\"N\" format=\"F\" other=\"x\">\
<tw-passagedata pid=\"1\" size=\"1,1\" tags=\"a b\">one</tw-passagedata>\
</tw-storydata><tw-storydata startnode=\"2\"></tw-storydata>";
    let sources = StorySource::read_all(&Html::parse_document(document));
    assert_eq!(
        sources,
        vec![
            StorySource {
                name: text("N"),
                start_node: None,
                format: text("F"),
                passages: vec![PassageSource {
                    pid: text("1"),
                    name: None,
                    position: None,
                    size: text("1,1"),
                    text: "one".to_string(),
                }],
            },
            StorySource { name: None, start_node: text("2"), format: None, passages: vec![] },
        ]
    );
}

#[test]
fn passage_from_element() {
    let html = Html::parse_document(DEMO);
    let selector = Selector::parse("tw-passagedata").unwrap();
    let passages: Vec<Result<PassageData, Field>> =
        html.select(&selector).map(PassageData::from_element).collect();
    assert_eq!(passages.len(), 2);
    assert_eq!(passages[1].as_ref().unwrap().name, "End");
    assert_eq!(passages[1].as_ref().unwrap().position, "50,50");
    assert_eq!(passages[0].as_ref().unwrap().content, "Go to <img src=\"x.png\"/>");

    let other = Html::parse_fragment("<p id=\"7\" name=\"para\">text</p>");
    let paragraph = other.select(&Selector::parse("p").unwrap()).next().unwrap();
    assert_eq!(PassageData::from_element(paragraph), Err(Field::Pid));
    assert_eq!(
        PassageSource::read(paragraph),
        PassageSource {
            pid: None,
            name: text("para"),
            position: None,
            size: None,
            text: "text".to_string(),
        }
    );
}

#[test]
fn passage_from_source() {
    assert_eq!(
        PassageData::from_source(passage_source("4", "Four", "body")),
        Ok(PassageData {
            pid: "4".to_string(),
            name: "Four".to_string(),
            position: "0,0".to_string(),
            size: "100,100".to_string(),
            content: "body".to_string(),
        })
    );
    let mut source = passage_source("4", "Four", "body");
    source.size = None;
    assert_eq!(PassageData::from_source(source.clone()), Err(Field::Size));
    source.position = None;
    assert_eq!(PassageData::from_source(source.clone()), Err(Field::Position));
    source.name = None;
    assert_eq!(PassageData::from_source(source.clone()), Err(Field::PassageName));
    source.pid = None;
    assert_eq!(PassageData::from_source(source), Err(Field::Pid));
}

#[test]
fn story_from_sources() {
    assert_eq!(Story::from_sources(vec![]), Err(ExtractError::MissingContainer));
    assert_eq!(
        Story::from_sources(vec![story_source(vec![]), story_source(vec![])]),
        Err(ExtractError::AmbiguousContainer)
    );
    let mut broken = story_source(vec![]);
    broken.name = None;
    assert_eq!(
        Story::from_sources(vec![broken.clone(), broken.clone(), broken]),
        Err(ExtractError::AmbiguousContainer)
    );

    let story = Story::from_sources(vec![story_source(vec![
        passage_source("1", "Start", "a"),
        passage_source("2", "Middle", "b"),
        passage_source("3", "End", "c"),
    ])])
    .unwrap();
    assert_eq!(story.name, "Demo");
    assert_eq!(story.start_node, "1");
    assert_eq!(story.format, "Harlowe");
    let names: Vec<&str> = story.passages.iter().map(|p| p.name.as_str()).collect();
    assert_eq!(names, vec!["Start", "Middle", "End"]);
    let contents: Vec<&str> = story.passages.iter().map(|p| p.content.as_str()).collect();
    assert_eq!(contents, vec!["a", "b", "c"]);
}

#[test]
fn story_from_source_reports_the_first_failure() {
    let mut second = passage_source("2", "B", "b");
    second.position = None;
    second.size = None;
    let mut third = passage_source("3", "C", "c");
    third.pid = None;
    let source = story_source(vec![passage_source("1", "A", "a"), second, third]);
    assert_eq!(
        Story::from_source(source.clone()),
        Err(ExtractError::MissingAttribute { field: Field::Position, passage: Some(1) })
    );
    let mut headless = source;
    headless.start_node = None;
    headless.format = None;
    assert_eq!(
        Story::from_source(headless),
        Err(ExtractError::MissingAttribute { field: Field::StartNode, passage: None })
    );
}

#[test]
fn passage_names_and_contents() {
    let story = Story::from_html(&Html::parse_document(DEMO)).unwrap();
    assert_eq!(story.passage_names(), vec!["Start", "End"]);
    assert_eq!(
        story.passage_content(0).map(String::as_str),
        Some("Go to <img src=\"x.png\"/>")
    );
    assert_eq!(story.passage_content(1).map(String::as_str), Some("The end."));
    assert_eq!(story.passage_content(2), None);
    assert_eq!(story.passage_content(usize::MAX), None);
}

#[test]
fn field_names() {
    assert_eq!(Field::StoryName.attribute_name(), "name");
    assert_eq!(Field::StartNode.attribute_name(), "startnode");
    assert_eq!(Field::Format.attribute_name(), "format");
    assert_eq!(Field::Pid.attribute_name(), "pid");
    assert_eq!(Field::PassageName.attribute_name(), "name");
    assert_eq!(Field::Position.attribute_name(), "position");
    assert_eq!(Field::Size.attribute_name(), "size");
}
