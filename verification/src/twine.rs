//! The story model, and how a story is built from what its document holds.

use crate::views::value_view;
use vstd::prelude::*;

verus! {

/// An attribute that a story or a passage cannot be without.
#[derive(Clone, Copy, Debug, PartialEq, Eq, Structural)]
pub enum Field {
    /// `name` on the story's element.
    StoryName,
    /// `startnode` on the story's element.
    StartNode,
    /// `format` on the story's element.
    Format,
    /// `pid` on a passage's element.
    Pid,
    /// `name` on a passage's element.
    PassageName,
    /// `position` on a passage's element.
    Position,
    /// `size` on a passage's element.
    Size,
}

impl Field {
    /// The attribute's name, as it is written in the document.
    pub open spec fn attribute(self) -> Seq<char> {
        match self {
            Field::StoryName => "name"@,
            Field::StartNode => "startnode"@,
            Field::Format => "format"@,
            Field::Pid => "pid"@,
            Field::PassageName => "name"@,
            Field::Position => "position"@,
            Field::Size => "size"@,
        }
    }

    /// The attribute's name, as it is written in the document.
    pub fn attribute_name(self) -> (name: &'static str)
        ensures
            name@ == self.attribute(),
    {
        match self {
            Field::StoryName => "name",
            Field::StartNode => "startnode",
            Field::Format => "format",
            Field::Pid => "pid",
            Field::PassageName => "name",
            Field::Position => "position",
            Field::Size => "size",
        }
    }
}

/// Why no story could be built from a document.
#[derive(Clone, Copy, Debug, PartialEq, Eq)]
pub enum ExtractError {
    /// The document holds no story element.
    MissingContainer,
    /// The document holds more than one story element.
    AmbiguousContainer,
    /// An element lacks an attribute it cannot be without. `passage` is the
    /// position of the passage among the story's passages, counted from 0, or
    /// `None` where the story's own element lacks the attribute.
    MissingAttribute { field: Field, passage: Option<usize> },
}

/// One passage of a story.
#[derive(Clone, Debug, PartialEq, Eq)]
pub struct PassageData {
    pub pid: String,
    pub name: String,
    pub position: String,
    pub size: String,
    pub content: String,
}

/// A passage, with its texts as sequences of characters.
pub struct PassageView {
    pub pid: Seq<char>,
    pub name: Seq<char>,
    pub position: Seq<char>,
    pub size: Seq<char>,
    pub content: Seq<char>,
}

impl View for PassageData {
    type V = PassageView;

    open spec fn view(&self) -> PassageView {
        PassageView {
            pid: self.pid@,
            name: self.name@,
            position: self.position@,
            size: self.size@,
            content: self.content@,
        }
    }
}

/// What a passage's element holds: each attribute that a passage is built
/// from, where the element has it, and the element's text.
#[derive(Clone, Debug, PartialEq, Eq)]
pub struct PassageSource {
    pub pid: Option<String>,
    pub name: Option<String>,
    pub position: Option<String>,
    pub size: Option<String>,
    pub text: String,
}

/// A passage's element, with its texts as sequences of characters.
pub struct PassageSourceView {
    pub pid: Option<Seq<char>>,
    pub name: Option<Seq<char>>,
    pub position: Option<Seq<char>>,
    pub size: Option<Seq<char>>,
    pub text: Seq<char>,
}

impl View for PassageSource {
    type V = PassageSourceView;

    open spec fn view(&self) -> PassageSourceView {
        PassageSourceView {
            pid: value_view(self.pid),
            name: value_view(self.name),
            position: value_view(self.position),
            size: value_view(self.size),
            text: self.text@,
        }
    }
}

impl PassageSourceView {
    /// The first attribute that the element lacks, in the order `pid`,
    /// `name`, `position`, `size`; `None` where it has all four.
    pub open spec fn missing(self) -> Option<Field> {
        if self.pid is None {
            Some(Field::Pid)
        } else if self.name is None {
            Some(Field::PassageName)
        } else if self.position is None {
            Some(Field::Position)
        } else if self.size is None {
            Some(Field::Size)
        } else {
            None
        }
    }

    /// The passage that an element with all four attributes stands for: the
    /// attributes as they are, and the element's text as the content.
    pub open spec fn passage(self) -> PassageView
        recommends
            self.missing() is None,
    {
        PassageView {
            pid: self.pid.unwrap(),
            name: self.name.unwrap(),
            position: self.position.unwrap(),
            size: self.size.unwrap(),
            content: self.text,
        }
    }
}

impl PassageData {
    /// Builds the passage that `source` stands for. Fails with the first
    /// attribute that `source` lacks.
    pub fn from_source(source: PassageSource) -> (outcome: Result<PassageData, Field>)
        ensures
            match outcome {
                Ok(passage) => source@.missing() is None && passage@ == source@.passage(),
                Err(field) => source@.missing() == Some(field),
            },
    {
        let PassageSource { pid, name, position, size, text } = source;
        let pid = match pid {
            Some(value) => value,
            None => {
                return Err(Field::Pid);
            },
        };
        let name = match name {
            Some(value) => value,
            None => {
                return Err(Field::PassageName);
            },
        };
        let position = match position {
            Some(value) => value,
            None => {
                return Err(Field::Position);
            },
        };
        let size = match size {
            Some(value) => value,
            None => {
                return Err(Field::Size);
            },
        };
        Ok(PassageData { pid, name, position, size, content: text })
    }
}

/// A story: its metadata and its passages, in the order of the document.
#[derive(Clone, Debug, PartialEq, Eq)]
pub struct Story {
    pub name: String,
    pub start_node: String,
    pub format: String,
    pub passages: Vec<PassageData>,
}

/// A story, with its texts as sequences of characters.
pub struct StoryView {
    pub name: Seq<char>,
    pub start_node: Seq<char>,
    pub format: Seq<char>,
    pub passages: Seq<PassageView>,
}

impl View for Story {
    type V = StoryView;

    open spec fn view(&self) -> StoryView {
        StoryView {
            name: self.name@,
            start_node: self.start_node@,
            format: self.format@,
            passages: self.passages@.map_values(|passage: PassageData| passage@),
        }
    }
}

/// What a story's element holds: each attribute that a story is built from,
/// where the element has it, and the passage elements below it, in the order
/// of the document.
#[derive(Clone, Debug, PartialEq, Eq)]
pub struct StorySource {
    pub name: Option<String>,
    pub start_node: Option<String>,
    pub format: Option<String>,
    pub passages: Vec<PassageSource>,
}

/// A story's element, with its texts as sequences of characters.
pub struct StorySourceView {
    pub name: Option<Seq<char>>,
    pub start_node: Option<Seq<char>>,
    pub format: Option<Seq<char>>,
    pub passages: Seq<PassageSourceView>,
}

impl View for StorySource {
    type V = StorySourceView;

    open spec fn view(&self) -> StorySourceView {
        StorySourceView {
            name: value_view(self.name),
            start_node: value_view(self.start_node),
            format: value_view(self.format),
            passages: self.passages@.map_values(|passage: PassageSource| passage@),
        }
    }
}

impl StorySourceView {
    /// The first attribute that the story's own element lacks, in the order
    /// `name`, `startnode`, `format`; `None` where it has all three.
    pub open spec fn missing(self) -> Option<Field> {
        if self.name is None {
            Some(Field::StoryName)
        } else if self.start_node is None {
            Some(Field::StartNode)
        } else if self.format is None {
            Some(Field::Format)
        } else {
            None
        }
    }

    /// Whether the first `count` passage elements have all their attributes.
    pub open spec fn passages_complete(self, count: int) -> bool {
        forall|i: int| 0 <= i < count ==> (#[trigger] self.passages[i]).missing() is None
    }

    /// Whether the story's element and every passage element below it have
    /// all their attributes.
    pub open spec fn complete(self) -> bool {
        self.missing() is None && self.passages_complete(self.passages.len() as int)
    }

    /// The story that a complete element stands for: the attributes as they
    /// are, and one passage for each passage element, in the same order.
    pub open spec fn story(self) -> StoryView
        recommends
            self.complete(),
    {
        StoryView {
            name: self.name.unwrap(),
            start_node: self.start_node.unwrap(),
            format: self.format.unwrap(),
            passages: self.passages.map_values(|source: PassageSourceView| source.passage()),
        }
    }

    /// Whether `outcome` is what building a story from this element gives.
    ///
    /// A complete element gives its story. An element that lacks an attribute
    /// of its own gives the first such attribute. Any other element gives its
    /// first passage element that lacks an attribute, and the first attribute
    /// that it lacks.
    pub open spec fn builds(self, outcome: Result<StoryView, ExtractError>) -> bool {
        match outcome {
            Ok(story) => self.complete() && story == self.story(),
            Err(ExtractError::MissingAttribute { field, passage: None }) => self.missing() == Some(
                field,
            ),
            Err(ExtractError::MissingAttribute { field, passage: Some(index) }) => {
                &&& self.missing() is None
                &&& index < self.passages.len()
                &&& self.passages_complete(index as int)
                &&& self.passages[index as int].missing() == Some(field)
            },
            Err(_) => false,
        }
    }
}

/// Whether `outcome` is what extraction gives for a document that holds the
/// story elements `sources`.
///
/// A document with one story element gives what that element builds. A
/// document with none, or with more than one, gives no story.
pub open spec fn extracts(
    sources: Seq<StorySourceView>,
    outcome: Result<StoryView, ExtractError>,
) -> bool {
    if sources.len() == 0 {
        outcome == Err::<StoryView, ExtractError>(ExtractError::MissingContainer)
    } else if sources.len() > 1 {
        outcome == Err::<StoryView, ExtractError>(ExtractError::AmbiguousContainer)
    } else {
        sources[0].builds(outcome)
    }
}

/// An outcome of extraction, with the story's texts as sequences of
/// characters.
pub open spec fn outcome_view(outcome: Result<Story, ExtractError>) -> Result<
    StoryView,
    ExtractError,
> {
    match outcome {
        Ok(story) => Ok(story@),
        Err(error) => Err(error),
    }
}

/// Story elements, with their texts as sequences of characters.
pub open spec fn sources_view(sources: Seq<StorySource>) -> Seq<StorySourceView> {
    sources.map_values(|source: StorySource| source@)
}

impl Story {
    /// Builds the story that `source` stands for, with its passages in the
    /// order of the passage elements. Fails with the first attribute that is
    /// missing: one of the story's own, or else one of the first passage
    /// element that lacks any.
    pub fn from_source(source: StorySource) -> (outcome: Result<Story, ExtractError>)
        ensures
            source@.builds(outcome_view(outcome)),
    {
        let ghost found = source@;
        let StorySource { name, start_node, format, passages } = source;
        let name = match name {
            Some(value) => value,
            None => {
                return Err(
                    ExtractError::MissingAttribute { field: Field::StoryName, passage: None },
                );
            },
        };
        let start_node = match start_node {
            Some(value) => value,
            None => {
                return Err(
                    ExtractError::MissingAttribute { field: Field::StartNode, passage: None },
                );
            },
        };
        let format = match format {
            Some(value) => value,
            None => {
                return Err(ExtractError::MissingAttribute { field: Field::Format, passage: None });
            },
        };
        let ghost all = passages@;
        let mut built: Vec<PassageData> = Vec::new();
        for passage in it: passages
            invariant
                it.seq() == all,
                found == source@,
                found.missing() is None,
                found.passages == all.map_values(|passage: PassageSource| passage@),
                built@.len() == it.index(),
                found.passages_complete(it.index() as int),
                forall|i: int|
                    0 <= i < built@.len() ==> (#[trigger] built@[i])@
                        == found.passages[i].passage(),
        {
            let index: usize = built.len();
            assert(passage@ == found.passages[index as int]);
            match PassageData::from_source(passage) {
                Ok(data) => {
                    built.push(data);
                },
                Err(field) => {
                    return Err(ExtractError::MissingAttribute { field, passage: Some(index) });
                },
            }
        }
        let story = Story { name, start_node, format, passages: built };
        assert(story@.passages =~= found.story().passages);
        Ok(story)
    }

    /// Builds the story of a document that holds the story elements
    /// `sources`. Fails with `MissingContainer` where there is none, with
    /// `AmbiguousContainer` where there are several, and else as
    /// [`Story::from_source`] does.
    pub fn from_sources(sources: Vec<StorySource>) -> (outcome: Result<Story, ExtractError>)
        ensures
            extracts(sources_view(sources@), outcome_view(outcome)),
    {
        let mut sources = sources;
        if sources.len() > 1 {
            return Err(ExtractError::AmbiguousContainer);
        }
        match sources.pop() {
            Some(source) => Story::from_source(source),
            None => Err(ExtractError::MissingContainer),
        }
    }

    /// The names of the passages, in the order of the passages.
    pub fn passage_names(&self) -> (names: Vec<&String>)
        ensures
            names@.len() == self.passages@.len(),
            forall|i: int|
                0 <= i < names@.len() ==> *(#[trigger] names@[i]) == self.passages@[i].name,
    {
        let mut names: Vec<&String> = Vec::new();
        let mut index: usize = 0;
        while index < self.passages.len()
            invariant
                0 <= index <= self.passages@.len(),
                names@.len() == index,
                forall|i: int|
                    0 <= i < index ==> *(#[trigger] names@[i]) == self.passages@[i].name,
            decreases self.passages@.len() - index,
        {
            names.push(&self.passages[index].name);
            index += 1;
        }
        names
    }

    /// The content of the passage at `index`, counted from 0; `None` where
    /// the story has no such passage.
    pub fn passage_content(&self, index: usize) -> (content: Option<&String>)
        ensures
            match content {
                Some(text) => index < self.passages@.len() && *text
                    == self.passages@[index as int].content,
                None => index >= self.passages@.len(),
            },
    {
        if index < self.passages.len() {
            Some(&self.passages[index].content)
        } else {
            None
        }
    }
}

/// A document with exactly one story element, on which and below which no
/// attribute is missing, gives a story. The story has the element's
/// attributes as its metadata and one passage for each passage element, in the
/// same order; each passage has its element's four attributes, as they are,
/// and its element's text as content.
pub proof fn lemma_complete_document_gives_story(
    sources: Seq<StorySourceView>,
    outcome: Result<StoryView, ExtractError>,
)
    requires
        sources.len() == 1,
        sources[0].complete(),
        extracts(sources, outcome),
    ensures
        outcome is Ok,
        Some(outcome->Ok_0.name) == sources[0].name,
        Some(outcome->Ok_0.start_node) == sources[0].start_node,
        Some(outcome->Ok_0.format) == sources[0].format,
        outcome->Ok_0.passages.len() == sources[0].passages.len(),
        forall|i: int|
            #![trigger outcome->Ok_0.passages[i]]
            0 <= i < sources[0].passages.len() ==> {
                &&& Some(outcome->Ok_0.passages[i].pid) == sources[0].passages[i].pid
                &&& Some(outcome->Ok_0.passages[i].name) == sources[0].passages[i].name
                &&& Some(outcome->Ok_0.passages[i].position) == sources[0].passages[i].position
                &&& Some(outcome->Ok_0.passages[i].size) == sources[0].passages[i].size
                &&& outcome->Ok_0.passages[i].content == sources[0].passages[i].text
            },
{
    let source = sources[0];
    match outcome {
        Ok(story) => {
            assert forall|i: int| 0 <= i < source.passages.len() implies Some(
                #[trigger] story.passages[i].pid,
            ) == source.passages[i].pid && Some(story.passages[i].name) == source.passages[i].name
                && Some(story.passages[i].position) == source.passages[i].position && Some(
                story.passages[i].size,
            ) == source.passages[i].size by {
                assert(source.passages[i].missing() is None);
            }
        },
        Err(ExtractError::MissingAttribute { field, passage: Some(index) }) => {
            assert(source.passages[index as int].missing() is None);
        },
        Err(_) => {},
    }
}

/// A document without a story element gives no story: extraction fails with
/// `MissingContainer`.
pub proof fn lemma_no_container_fails(
    sources: Seq<StorySourceView>,
    outcome: Result<StoryView, ExtractError>,
)
    requires
        sources.len() == 0,
        extracts(sources, outcome),
    ensures
        outcome == Err::<StoryView, ExtractError>(ExtractError::MissingContainer),
{
}

/// A document with exactly one story element, below which some passage
/// element lacks one of its four attributes, gives no story: extraction fails
/// with `MissingAttribute`, whatever the other passage elements hold.
pub proof fn lemma_incomplete_passage_fails(
    sources: Seq<StorySourceView>,
    outcome: Result<StoryView, ExtractError>,
    index: int,
)
    requires
        sources.len() == 1,
        0 <= index < sources[0].passages.len(),
        sources[0].passages[index].missing() is Some,
        extracts(sources, outcome),
    ensures
        outcome is Err,
        outcome->Err_0 is MissingAttribute,
{
}

/// One document has one outcome: whatever extraction gives for it, it gives
/// every time.
pub proof fn lemma_extraction_is_determined(
    sources: Seq<StorySourceView>,
    first: Result<StoryView, ExtractError>,
    second: Result<StoryView, ExtractError>,
)
    requires
        extracts(sources, first),
        extracts(sources, second),
    ensures
        first == second,
{
    if sources.len() == 1 {
        let source = sources[0];
        match (first, second) {
            (
                Err(ExtractError::MissingAttribute { field: _, passage: Some(i) }),
                Err(ExtractError::MissingAttribute { field: _, passage: Some(j) }),
            ) => {
                if i < j {
                    assert(source.passages[i as int].missing() is None);
                } else if j < i {
                    assert(source.passages[j as int].missing() is None);
                }
            },
            (Ok(_), Err(ExtractError::MissingAttribute { field: _, passage: Some(i) })) => {
                assert(source.passages[i as int].missing() is None);
            },
            (Err(ExtractError::MissingAttribute { field: _, passage: Some(i) }), Ok(_)) => {
                assert(source.passages[i as int].missing() is None);
            },
            _ => {},
        }
    }
}

} // verus!
