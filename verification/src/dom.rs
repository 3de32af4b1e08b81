//! The queries this crate makes of `scraper`, and what it believes of them.
//!
//! Nothing in this module is proved. Every function here makes one call into
//! `scraper` and states that the answer is a function of the arguments: the
//! same tree, asked the same question, gives the same answer. What the answer
//! is on a given tree is left to `scraper`.

use crate::views::value_view;
use scraper::{ElementRef, Html, Selector};
use vstd::prelude::*;

verus! {

/// A parsed HTML tree, a document or a fragment.
#[verifier::external_type_specification]
#[verifier::external_body]
pub struct ExHtml(scraper::Html);

/// A parsed group of CSS selectors.
#[verifier::external_type_specification]
#[verifier::external_body]
pub struct ExSelector(scraper::Selector);

/// One element of a parsed tree.
#[verifier::external_type_specification]
#[verifier::external_body]
pub struct ExElementRef<'a>(scraper::ElementRef<'a>);

/// Whether `tag` is a plain element name: a lower-case ASCII letter, followed
/// by lower-case ASCII letters, digits and hyphens. Every such name is a CSS
/// identifier, and so a selector that matches elements by their name.
pub open spec fn is_tag_name(tag: Seq<char>) -> bool {
    &&& tag.len() > 0
    &&& 'a' <= tag[0] <= 'z'
    &&& forall|i: int|
        0 <= i < tag.len() ==> ('a' <= #[trigger] tag[i] <= 'z' || '0' <= tag[i] <= '9' || tag[i]
            == '-')
}

/// The selector that `Selector::parse` makes of `tag`.
pub uninterp spec fn tag_selector(tag: Seq<char>) -> Selector;

/// The tree that `Html::parse_fragment` makes of `text`.
pub uninterp spec fn fragment_tree(text: Seq<char>) -> Html;

/// The elements that `Html::select` finds in `html`, in the order in which it
/// yields them.
pub uninterp spec fn document_matches(html: &Html, selector: Selector) -> Seq<ElementRef<'_>>;

/// The elements that `ElementRef::select` finds below `scope`, in the order in
/// which it yields them.
pub uninterp spec fn descendant_matches(scope: ElementRef<'_>, selector: Selector) -> Seq<
    ElementRef<'_>,
>;

/// What `ElementRef::attr` answers for the attribute `name` of `element`:
/// its value, or `None` where the element has no such attribute.
pub uninterp spec fn attribute_value(element: ElementRef<'_>, name: Seq<char>) -> Option<
    Seq<char>,
>;

/// The text nodes below `element` that `ElementRef::text` yields, joined in
/// the order in which it yields them.
pub uninterp spec fn text_content(element: ElementRef<'_>) -> Seq<char>;

/// Calls `Selector::parse`. A plain element name always parses, so the
/// selector is there to be unwrapped; it is the one named by `tag_selector`.
#[verifier::external_body]
pub(crate) fn parse_tag_selector(tag: &str) -> (selector: Selector)
    requires
        is_tag_name(tag@),
    ensures
        selector == tag_selector(tag@),
{
    Selector::parse(tag).unwrap()
}

/// Calls `Html::parse_fragment`, which takes any text and never fails.
#[verifier::external_body]
pub(crate) fn parse_fragment(text: &str) -> (html: Html)
    ensures
        html == fragment_tree(text@),
{
    Html::parse_fragment(text)
}

/// Calls `Html::select` and collects what it yields.
#[verifier::external_body]
pub(crate) fn select_in_document<'a>(html: &'a Html, selector: &Selector) -> (found: Vec<
    ElementRef<'a>,
>)
    ensures
        found@ == document_matches(html, *selector),
{
    html.select(selector).collect()
}

/// Calls `ElementRef::select` and collects what it yields.
#[verifier::external_body]
pub(crate) fn select_below<'a>(scope: ElementRef<'a>, selector: &Selector) -> (found: Vec<
    ElementRef<'a>,
>)
    ensures
        found@ == descendant_matches(scope, *selector),
{
    scope.select(selector).collect()
}

/// Calls `ElementRef::attr` and copies the value, where there is one.
#[verifier::external_body]
pub(crate) fn attribute(element: ElementRef<'_>, name: &str) -> (value: Option<String>)
    ensures
        value_view(value) == attribute_value(element, name@),
{
    element.attr(name).map(String::from)
}

/// Calls `ElementRef::text` and joins what it yields.
#[verifier::external_body]
pub(crate) fn text_of(element: ElementRef<'_>) -> (text: String)
    ensures
        text@ == text_content(element),
{
    element.text().collect()
}

} // verus!
