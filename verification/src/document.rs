//! Reading a story out of a parsed document.

use crate::dom::{
    attribute, attribute_value, descendant_matches, document_matches, is_tag_name,
    parse_tag_selector, select_below, select_in_document, tag_selector, text_content, text_of,
};
use crate::twine::{
    extracts, outcome_view, sources_view, ExtractError, Field, PassageData, PassageSource,
    PassageSourceView, Story, StorySource, StorySourceView,
};
use scraper::{ElementRef, Html};
use vstd::prelude::*;

verus! {

/// What the passage element `element` holds.
pub open spec fn passage_source(element: ElementRef<'_>) -> PassageSourceView {
    PassageSourceView {
        pid: attribute_value(element, Field::Pid.attribute()),
        name: attribute_value(element, Field::PassageName.attribute()),
        position: attribute_value(element, Field::Position.attribute()),
        size: attribute_value(element, Field::Size.attribute()),
        text: text_content(element),
    }
}

/// What the story element `element` holds: its own attributes, and the
/// `tw-passagedata` elements below it.
pub open spec fn story_source(element: ElementRef<'_>) -> StorySourceView {
    StorySourceView {
        name: attribute_value(element, Field::StoryName.attribute()),
        start_node: attribute_value(element, Field::StartNode.attribute()),
        format: attribute_value(element, Field::Format.attribute()),
        passages: descendant_matches(element, tag_selector("tw-passagedata"@)).map_values(
            |passage: ElementRef<'_>| passage_source(passage),
        ),
    }
}

/// What the `tw-storydata` elements of `html` hold.
pub open spec fn document_sources(html: &Html) -> Seq<StorySourceView> {
    document_matches(html, tag_selector("tw-storydata"@)).map_values(
        |element: ElementRef<'_>| story_source(element),
    )
}

/// The name of the passage elements is a plain element name.
proof fn lemma_passage_tag()
    ensures
        is_tag_name("tw-passagedata"@),
{
    reveal_strlit("tw-passagedata");
}

/// The name of the story element is a plain element name.
proof fn lemma_story_tag()
    ensures
        is_tag_name("tw-storydata"@),
{
    reveal_strlit("tw-storydata");
}

impl PassageSource {
    /// Reads what the passage element `element` holds.
    pub fn read(element: ElementRef<'_>) -> (source: PassageSource)
        ensures
            source@ == passage_source(element),
    {
        PassageSource {
            pid: attribute(element, Field::Pid.attribute_name()),
            name: attribute(element, Field::PassageName.attribute_name()),
            position: attribute(element, Field::Position.attribute_name()),
            size: attribute(element, Field::Size.attribute_name()),
            text: text_of(element),
        }
    }
}

impl StorySource {
    /// Reads what the story element `element` holds.
    pub fn read(element: ElementRef<'_>) -> (source: StorySource)
        ensures
            source@ == story_source(element),
    {
        proof {
            lemma_passage_tag();
        }
        let selector = parse_tag_selector("tw-passagedata");
        let elements = select_below(element, &selector);
        let mut passages: Vec<PassageSource> = Vec::new();
        for passage in it: elements
            invariant
                it.seq() == descendant_matches(element, tag_selector("tw-passagedata"@)),
                passages@.len() == it.index(),
                forall|i: int|
                    0 <= i < passages@.len() ==> (#[trigger] passages@[i])@ == passage_source(
                        it.seq()[i],
                    ),
        {
            passages.push(PassageSource::read(passage));
        }
        let source = StorySource {
            name: attribute(element, Field::StoryName.attribute_name()),
            start_node: attribute(element, Field::StartNode.attribute_name()),
            format: attribute(element, Field::Format.attribute_name()),
            passages,
        };
        assert(source@.passages =~= story_source(element).passages);
        source
    }

    /// Reads what the `tw-storydata` elements of `html` hold.
    pub fn read_all(html: &Html) -> (sources: Vec<StorySource>)
        ensures
            sources_view(sources@) == document_sources(html),
    {
        proof {
            lemma_story_tag();
        }
        let selector = parse_tag_selector("tw-storydata");
        let elements = select_in_document(html, &selector);
        let mut sources: Vec<StorySource> = Vec::new();
        for element in it: elements
            invariant
                it.seq() == document_matches(html, tag_selector("tw-storydata"@)),
                sources@.len() == it.index(),
                forall|i: int|
                    0 <= i < sources@.len() ==> (#[trigger] sources@[i])@ == story_source(
                        it.seq()[i],
                    ),
        {
            sources.push(StorySource::read(element));
        }
        assert(sources_view(sources@) =~= document_sources(html));
        sources
    }
}

impl PassageData {
    /// Builds a passage from the passage element `tag`. Fails with the first
    /// attribute that the element lacks.
    pub fn from_element(tag: ElementRef<'_>) -> (outcome: Result<PassageData, Field>)
        ensures
            match outcome {
                Ok(passage) => passage_source(tag).missing() is None && passage@ == passage_source(
                    tag,
                ).passage(),
                Err(field) => passage_source(tag).missing() == Some(field),
            },
    {
        PassageData::from_source(PassageSource::read(tag))
    }
}

impl Story {
    /// Extracts the story of the document `html`.
    ///
    /// The document is to hold exactly one `tw-storydata` element: with none
    /// extraction fails with `MissingContainer`, with more than one with
    /// `AmbiguousContainer`, and no element is preferred to another. That
    /// element is to have `name`, `startnode` and `format`, and every
    /// `tw-passagedata` element below it `pid`, `name`, `position` and `size`.
    /// The first attribute that is missing, the story's own before those of
    /// the passages, fails the whole document with `MissingAttribute`: a story
    /// is returned in full or not at all.
    pub fn from_html(html: &Html) -> (outcome: Result<Story, ExtractError>)
        ensures
            extracts(document_sources(html), outcome_view(outcome)),
    {
        Story::from_sources(StorySource::read_all(html))
    }
}

} // verus!
