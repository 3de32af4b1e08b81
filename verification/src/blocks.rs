//! The script and style blocks that a document embeds, told apart by their
//! `id`.

use crate::dom::{
    attribute, attribute_value, document_matches, is_tag_name, parse_tag_selector,
    select_in_document, tag_selector, text_content, text_of,
};
use crate::views::{texts, value_view, values_view};
use scraper::{ElementRef, Html};
use vstd::prelude::*;

verus! {

/// The kinds of block that a document embeds.
#[derive(Clone, Copy, Debug, PartialEq, Eq, Structural)]
pub enum BlockKind {
    /// A `script` element.
    Script,
    /// A `style` element.
    Style,
}

impl BlockKind {
    /// The name of the elements that hold blocks of this kind.
    pub open spec fn tag(self) -> Seq<char> {
        match self {
            BlockKind::Script => "script"@,
            BlockKind::Style => "style"@,
        }
    }

    /// The name of the elements that hold blocks of this kind.
    pub fn tag_name(self) -> (name: &'static str)
        ensures
            name@ == self.tag(),
            is_tag_name(name@),
    {
        proof {
            reveal_strlit("script");
            reveal_strlit("style");
        }
        match self {
            BlockKind::Script => "script",
            BlockKind::Style => "style",
        }
    }
}

/// The values among `found`, in their order.
pub open spec fn present(found: Seq<Option<Seq<char>>>) -> Seq<Seq<char>> {
    found.filter(|value: Option<Seq<char>>| value is Some).map_values(
        |value: Option<Seq<char>>| value.unwrap(),
    )
}

/// Whether `index` is the first place in `found` that holds the value `id`.
pub open spec fn is_first_with(found: Seq<Option<Seq<char>>>, id: Seq<char>, index: int) -> bool {
    &&& 0 <= index < found.len()
    &&& found[index] == Some(id)
    &&& forall|i: int| 0 <= i < index ==> found[i] != Some(id)
}

/// Keeps the values among `found`, in their order.
pub fn present_values(found: Vec<Option<String>>) -> (values: Vec<String>)
    ensures
        texts(values@) == present(values_view(found@)),
{
    let ghost all = values_view(found@);
    let ghost has_value = |value: Option<Seq<char>>| value is Some;
    let mut values: Vec<String> = Vec::new();
    proof {
        assert(all.take(0).filter(has_value) =~= Seq::empty());
    }
    for value in it: found
        invariant
            all == values_view(it.seq()),
            has_value == (|value: Option<Seq<char>>| value is Some),
            texts(values@) == present(all.take(it.index() as int)),
    {
        let ghost seen = all.take(it.index() as int);
        proof {
            assert(all.take(it.index() + 1) =~= seen.push(value_view(value)));
            seen.lemma_filter_push(value_view(value), has_value);
        }
        match value {
            Some(text) => {
                let ghost kept = texts(values@);
                values.push(text);
                assert(texts(values@) =~= kept.push(text@));
            },
            None => {},
        }
    }
    proof {
        assert(all.take(all.len() as int) =~= all);
    }
    values
}

/// Finds the first place in `found` that holds the value `id`.
pub fn first_with(found: &Vec<Option<String>>, id: &String) -> (place: Option<usize>)
    ensures
        match place {
            Some(index) => is_first_with(values_view(found@), id@, index as int),
            None => !values_view(found@).contains(Some(id@)),
        },
{
    let mut index: usize = 0;
    while index < found.len()
        invariant
            0 <= index <= found@.len(),
            forall|i: int| 0 <= i < index ==> values_view(found@)[i] != Some(id@),
        decreases found@.len() - index,
    {
        assert(values_view(found@)[index as int] == value_view(found@[index as int]));
        match &found[index] {
            Some(value) => {
                if *value == *id {
                    return Some(index);
                }
            },
            None => {},
        }
        index += 1;
    }
    None
}

/// What the elements of `html` that hold blocks of `kind` answer for `id`,
/// one answer for each element.
pub open spec fn block_id_values(html: &Html, kind: BlockKind) -> Seq<Option<Seq<char>>> {
    document_matches(html, tag_selector(kind.tag())).map_values(
        |element: ElementRef<'_>| attribute_value(element, "id"@),
    )
}

/// Reads what each of `elements` answers for `id`.
fn read_ids(elements: &Vec<ElementRef<'_>>) -> (found: Vec<Option<String>>)
    ensures
        values_view(found@) == elements@.map_values(
            |element: ElementRef<'_>| attribute_value(element, "id"@),
        ),
{
    let mut found: Vec<Option<String>> = Vec::new();
    let mut index: usize = 0;
    while index < elements.len()
        invariant
            0 <= index <= elements@.len(),
            found@.len() == index,
            forall|i: int|
                0 <= i < index ==> value_view(#[trigger] found@[i]) == attribute_value(
                    elements@[i],
                    "id"@,
                ),
        decreases elements@.len() - index,
    {
        found.push(attribute(elements[index], "id"));
        index += 1;
    }
    assert(values_view(found@) =~= elements@.map_values(
        |element: ElementRef<'_>| attribute_value(element, "id"@),
    ));
    found
}

/// The `id` of every block of `kind` in `html` that has one, in the order of
/// the blocks.
pub fn block_ids(html: &Html, kind: BlockKind) -> (ids: Vec<String>)
    ensures
        texts(ids@) == present(block_id_values(html, kind)),
{
    let selector = parse_tag_selector(kind.tag_name());
    let elements = select_in_document(html, &selector);
    present_values(read_ids(&elements))
}

/// The text of the first block of `kind` in `html` whose `id` is `id`; `None`
/// where no block has that `id`.
pub fn block_text(html: &Html, kind: BlockKind, id: &String) -> (text: Option<String>)
    ensures
        match text {
            Some(content) => exists|index: int|
                is_first_with(block_id_values(html, kind), id@, index) && content@
                    == text_content(
                    #[trigger] document_matches(html, tag_selector(kind.tag()))[index],
                ),
            None => !block_id_values(html, kind).contains(Some(id@)),
        },
{
    let selector = parse_tag_selector(kind.tag_name());
    let elements = select_in_document(html, &selector);
    let found = read_ids(&elements);
    match first_with(&found, id) {
        Some(index) => Some(text_of(elements[index])),
        None => None,
    }
}

} // verus!
