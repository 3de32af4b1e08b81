//! The image links of a story: every source that an image in a passage
//! names, once each, in ascending order.

use crate::dom::{
    attribute, attribute_value, document_matches, fragment_tree, is_tag_name, parse_fragment,
    parse_tag_selector, select_in_document, tag_selector,
};
use crate::text_order::{
    comes_before, lemma_precedes_asymmetric, lemma_precedes_irreflexive, lemma_precedes_total,
    lemma_precedes_transitive, precedes,
};
use crate::twine::{PassageData, PassageView};
use crate::views::{texts, value_view, values_view};
use scraper::{ElementRef, Selector};
use vstd::prelude::*;
use vstd::string::StringExecFns;

verus! {

/// The links of a story, and how many they are.
#[derive(Clone, Debug, PartialEq, Eq)]
pub struct LinkReport {
    /// The links, each once, in ascending order.
    pub links: Vec<String>,
    /// The number of links.
    pub count: usize,
}

/// Whether each text of `links` comes before all that follow it.
pub open spec fn ascending(links: Seq<Seq<char>>) -> bool {
    forall|i: int, j: int| 0 <= i < j < links.len() ==> precedes(links[i], links[j])
}

/// Whether `links` lists the values that `found` holds: it is ascending, and
/// a text is in it exactly if it is a value in `found`.
pub open spec fn lists(found: Seq<Option<Seq<char>>>, links: Seq<Seq<char>>) -> bool {
    &&& ascending(links)
    &&& forall|link: Seq<char>| links.contains(link) <==> found.contains(Some(link))
}

/// The text that lists `links` one to a line: each link, followed by a line
/// feed.
pub open spec fn lines_of(links: Seq<Seq<char>>) -> Seq<char>
    decreases links.len(),
{
    if links.len() == 0 {
        Seq::empty()
    } else {
        lines_of(links.drop_last()) + links.last() + seq!['\n']
    }
}

impl LinkReport {
    /// The links as text, one to a line, in their order.
    pub fn lines(&self) -> (text: String)
        ensures
            text@ == lines_of(texts(self.links@)),
    {
        let ghost all = texts(self.links@);
        let mut text = String::new();
        let mut index: usize = 0;
        while index < self.links.len()
            invariant
                0 <= index <= self.links@.len(),
                all == texts(self.links@),
                text@ == lines_of(all.take(index as int)),
            decreases self.links@.len() - index,
        {
            proof {
                reveal_strlit("\n");
                assert(all.take(index + 1).drop_last() =~= all.take(index as int));
                assert("\n"@ =~= seq!['\n']);
            }
            text.append(self.links[index].as_str());
            text.append("\n");
            index += 1;
        }
        proof {
            assert(all.take(all.len() as int) =~= all);
        }
        text
    }
}

/// Puts `link` into the ascending `links`, unless it is there already.
fn insert_link(links: &mut Vec<String>, link: String)
    requires
        ascending(texts(old(links)@)),
    ensures
        ascending(texts(final(links)@)),
        forall|other: Seq<char>|
            texts(final(links)@).contains(other) <==> (texts(old(links)@).contains(other) || other
                == link@),
{
    let ghost before = texts(links@);
    let mut low: usize = 0;
    let mut high: usize = links.len();
    while low < high
        invariant
            before == texts(links@),
            ascending(before),
            0 <= low <= high <= links.len(),
            forall|i: int| 0 <= i < low ==> precedes(#[trigger] before[i], link@),
            forall|i: int| high <= i < before.len() ==> !precedes(#[trigger] before[i], link@),
        decreases high - low,
    {
        let middle: usize = low + (high - low) / 2;
        if comes_before(links[middle].as_str(), link.as_str()) {
            proof {
                assert forall|i: int| 0 <= i < middle + 1 implies precedes(
                    #[trigger] before[i],
                    link@,
                ) by {
                    if i < middle {
                        lemma_precedes_transitive(before[i], before[middle as int], link@);
                    }
                }
            }
            low = middle + 1;
        } else {
            proof {
                assert forall|i: int| middle <= i < before.len() implies !precedes(
                    #[trigger] before[i],
                    link@,
                ) by {
                    if middle < i && precedes(before[i], link@) {
                        lemma_precedes_transitive(before[middle as int], before[i], link@);
                    }
                }
            }
            high = middle;
        }
    }
    if low < links.len() && links[low] == link {
        proof {
            assert(before[low as int] == link@);
            assert forall|other: Seq<char>| other == link@ implies before.contains(other) by {}
        }
    } else {
        links.insert(low, link);
        proof {
            let after = texts(links@);
            assert(after =~= before.insert(low as int, link@));
            assert forall|i: int, j: int| 0 <= i < j < after.len() implies precedes(
                after[i],
                after[j],
            ) by {
                if low < before.len() {
                    lemma_precedes_total(before[low as int], link@);
                }
                if i == low && j > low + 1 {
                    lemma_precedes_transitive(link@, before[low as int], before[j - 1]);
                }
            }
            assert forall|other: Seq<char>|
                after.contains(other) <==> (before.contains(other) || other == link@) by {
                if after.contains(other) {
                    let i = choose|i: int| 0 <= i < after.len() && after[i] == other;
                    if i < low {
                        assert(before[i] == other);
                    } else if i > low {
                        assert(before[i - 1] == other);
                    }
                }
                if before.contains(other) {
                    let i = choose|i: int| 0 <= i < before.len() && before[i] == other;
                    if i < low {
                        assert(after[i] == other);
                    } else {
                        assert(after[i + 1] == other);
                    }
                }
                if other == link@ {
                    assert(after[low as int] == other);
                }
            }
        }
    }
}

/// Lists the values that `found` holds: each once, in ascending order.
pub fn unique_links(found: Vec<Option<String>>) -> (report: LinkReport)
    ensures
        lists(values_view(found@), texts(report.links@)),
        report.count == report.links@.len(),
{
    let ghost all = values_view(found@);
    let mut links: Vec<String> = Vec::new();
    for value in it: found
        invariant
            all == values_view(it.seq()),
            ascending(texts(links@)),
            forall|link: Seq<char>|
                texts(links@).contains(link) <==> all.take(it.index() as int).contains(Some(link)),
    {
        let ghost seen = all.take(it.index() as int);
        let ghost listed = texts(links@);
        proof {
            assert(all.take(it.index() + 1) =~= seen.push(value_view(value)));
        }
        match value {
            Some(link) => {
                insert_link(&mut links, link);
                proof {
                    assert forall|other: Seq<char>|
                        texts(links@).contains(other) <==> seen.push(Some(link@)).contains(
                            Some(other),
                        ) by {
                        lemma_push_contains(seen, Some(link@), Some(other));
                    }
                }
            },
            None => {
                proof {
                    assert forall|other: Seq<char>|
                        listed.contains(other) <==> seen.push(None).contains(Some(other)) by {
                        lemma_push_contains(seen, None, Some(other));
                    }
                }
            },
        }
    }
    proof {
        assert(all.take(all.len() as int) =~= all);
    }
    LinkReport { count: links.len(), links }
}

/// A sequence with one more item at its end holds what it held before, and
/// that item.
proof fn lemma_push_contains<A>(items: Seq<A>, last: A, needle: A)
    ensures
        items.push(last).contains(needle) <==> (items.contains(needle) || needle == last),
{
    let longer = items.push(last);
    if longer.contains(needle) {
        let i = choose|i: int| 0 <= i < longer.len() && longer[i] == needle;
        if i < items.len() {
            assert(items[i] == needle);
        }
    }
    if items.contains(needle) {
        let i = choose|i: int| 0 <= i < items.len() && items[i] == needle;
        assert(longer[i] == needle);
    }
    if needle == last {
        assert(longer[items.len() as int] == needle);
    }
}

/// What the `img` elements of the fragment `content` answer for `src`, one
/// answer for each element.
pub open spec fn image_sources(content: Seq<char>) -> Seq<Option<Seq<char>>> {
    document_matches(&fragment_tree(content), tag_selector("img"@)).map_values(
        |image: ElementRef<'_>| attribute_value(image, "src"@),
    )
}

/// What the `img` elements of all of `passages` answer for `src`, passage by
/// passage.
pub open spec fn passage_image_sources(passages: Seq<PassageView>) -> Seq<Option<Seq<char>>> {
    passages.map_values(|passage: PassageView| image_sources(passage.content)).flatten()
}

/// Passages, with their texts as sequences of characters.
pub open spec fn passages_view(passages: Seq<PassageData>) -> Seq<PassageView> {
    passages.map_values(|passage: PassageData| passage@)
}

/// The name of the image elements is a plain element name.
proof fn lemma_image_tag()
    ensures
        is_tag_name("img"@),
{
    reveal_strlit("img");
}

/// Parses `content` as a fragment of its own and adds to `found` what each of
/// its `img` elements answers for `src`.
fn read_image_sources(content: &str, selector: &Selector, found: &mut Vec<Option<String>>)
    requires
        *selector == tag_selector("img"@),
    ensures
        values_view(final(found)@) == values_view(old(found)@) + image_sources(content@),
{
    let ghost before = values_view(found@);
    let fragment = parse_fragment(content);
    let images = select_in_document(&fragment, selector);
    for image in it: images
        invariant
            it.seq() == document_matches(&fragment_tree(content@), tag_selector("img"@)),
            values_view(found@) == before + image_sources(content@).take(it.index() as int),
    {
        let ghost read = values_view(found@);
        let value = attribute(image, "src");
        found.push(value);
        assert(values_view(found@) =~= read.push(attribute_value(image, "src"@)));
    }
    assert(image_sources(content@).take(image_sources(content@).len() as int) =~= image_sources(
        content@,
    ));
}

/// Collects the image links of `passages`. Each passage's content is read as
/// an HTML fragment of its own; an `img` element without a `src` adds nothing.
pub fn extract_links(passages: &Vec<PassageData>) -> (report: LinkReport)
    ensures
        lists(passage_image_sources(passages_view(passages@)), texts(report.links@)),
        report.count == report.links@.len(),
{
    proof {
        lemma_image_tag();
    }
    let selector = parse_tag_selector("img");
    let ghost all = passages_view(passages@);
    let mut found: Vec<Option<String>> = Vec::new();
    let mut index: usize = 0;
    while index < passages.len()
        invariant
            0 <= index <= passages.len(),
            all == passages_view(passages@),
            selector == tag_selector("img"@),
            values_view(found@) == passage_image_sources(all.take(index as int)),
        decreases passages.len() - index,
    {
        let ghost read = all.take(index as int);
        read_image_sources(passages[index].content.as_str(), &selector, &mut found);
        proof {
            let per_passage = |passage: PassageView| image_sources(passage.content);
            assert(all.take(index + 1).map_values(per_passage) =~= read.map_values(
                per_passage,
            ).push(image_sources(all[index as int].content)));
            read.map_values(per_passage).lemma_flatten_push(
                image_sources(all[index as int].content),
            );
        }
        index += 1;
    }
    proof {
        assert(all.take(all.len() as int) =~= all);
    }
    unique_links(found)
}

/// No link is listed twice: a value that `found` holds any number of times
/// is in the list exactly once.
pub proof fn lemma_links_are_distinct(found: Seq<Option<Seq<char>>>, links: Seq<Seq<char>>)
    requires
        lists(found, links),
    ensures
        links.no_duplicates(),
        forall|link: Seq<char>| found.contains(Some(link)) ==> links.contains(link),
{
    assert forall|i: int, j: int|
        0 <= i < links.len() && 0 <= j < links.len() && i != j implies links[i] != links[j] by {
        lemma_precedes_irreflexive(links[i]);
    }
}

/// Passages without an `img` element have no links.
pub proof fn lemma_no_images_no_links(passages: Seq<PassageView>, links: Seq<Seq<char>>)
    requires
        forall|i: int| 0 <= i < passages.len() ==> image_sources(passages[i].content).len() == 0,
        lists(passage_image_sources(passages), links),
    ensures
        links.len() == 0,
{
    let per_passage = passages.map_values(|passage: PassageView| image_sources(passage.content));
    assert forall|i: int| 0 <= i < per_passage.len() implies (#[trigger] per_passage[i]).len()
        == 0 by {
        assert(image_sources(passages[i].content).len() == 0);
    }
    lemma_flatten_of_empty(per_passage);
    if links.len() > 0 {
        assert(links.contains(links[0]));
    }
}

/// Joining sequences that are all empty gives the empty sequence.
proof fn lemma_flatten_of_empty<A>(parts: Seq<Seq<A>>)
    requires
        forall|i: int| 0 <= i < parts.len() ==> (#[trigger] parts[i]).len() == 0,
    ensures
        parts.flatten().len() == 0,
    decreases parts.len(),
{
    if parts.len() > 0 {
        assert forall|i: int| 0 <= i < parts.drop_first().len() implies (
        #[trigger] parts.drop_first()[i]).len() == 0 by {
            assert(parts[i + 1].len() == 0);
        }
        lemma_flatten_of_empty(parts.drop_first());
    }
}

/// The values that were found have one list: two lists of the same values
/// are equal, whatever the order in which the values were found.
pub proof fn lemma_links_are_determined(
    found: Seq<Option<Seq<char>>>,
    first: Seq<Seq<char>>,
    second: Seq<Seq<char>>,
)
    requires
        lists(found, first),
        lists(found, second),
    ensures
        first == second,
{
    lemma_ascending_same_contents(first, second);
}

/// Two ascending sequences that hold the same texts are equal.
proof fn lemma_ascending_same_contents(first: Seq<Seq<char>>, second: Seq<Seq<char>>)
    requires
        ascending(first),
        ascending(second),
        forall|link: Seq<char>| first.contains(link) <==> second.contains(link),
    ensures
        first == second,
    decreases first.len(),
{
    if first.len() == 0 {
        if second.len() > 0 {
            assert(second.contains(second[0]));
        }
        assert(first =~= second);
    } else if second.len() == 0 {
        assert(first.contains(first[0]));
    } else {
        assert(first.contains(first[0]));
        assert(second.contains(second[0]));
        let i = choose|i: int| 0 <= i < second.len() && second[i] == first[0];
        let j = choose|j: int| 0 <= j < first.len() && first[j] == second[0];
        if i > 0 && j > 0 {
            lemma_precedes_asymmetric(second[0], second[i]);
        } else if i > 0 {
            lemma_precedes_irreflexive(second[0]);
        } else if j > 0 {
            lemma_precedes_irreflexive(first[0]);
        }
        assert(first[0] == second[0]);
        let first_rest = first.drop_first();
        let second_rest = second.drop_first();
        assert forall|link: Seq<char>| first_rest.contains(link) <==> second_rest.contains(
            link,
        ) by {
            lemma_precedes_irreflexive(link);
            if first_rest.contains(link) {
                let k = choose|k: int| 0 <= k < first_rest.len() && first_rest[k] == link;
                assert(first[k + 1] == link);
                assert(first.contains(link));
                let m = choose|m: int| 0 <= m < second.len() && second[m] == link;
                assert(m > 0);
                assert(second_rest[m - 1] == link);
            }
            if second_rest.contains(link) {
                let k = choose|k: int| 0 <= k < second_rest.len() && second_rest[k] == link;
                assert(second[k + 1] == link);
                assert(second.contains(link));
                let m = choose|m: int| 0 <= m < first.len() && first[m] == link;
                assert(m > 0);
                assert(first_rest[m - 1] == link);
            }
        }
        assert forall|a: int, b: int| 0 <= a < b < first_rest.len() implies precedes(
            first_rest[a],
            first_rest[b],
        ) by {
            assert(precedes(first[a + 1], first[b + 1]));
        }
        assert forall|a: int, b: int| 0 <= a < b < second_rest.len() implies precedes(
            second_rest[a],
            second_rest[b],
        ) by {
            assert(precedes(second[a + 1], second[b + 1]));
        }
        lemma_ascending_same_contents(first_rest, second_rest);
        assert(first =~= seq![first[0]] + first_rest);
        assert(second =~= seq![second[0]] + second_rest);
    }
}

} // verus!
