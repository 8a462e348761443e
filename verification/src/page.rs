//! A book page as the `scraper` crate parses it, and what a CSS selector
//! finds in it.
//!
//! The parsing and the matching are `scraper`'s. What they return is a
//! function of the markup and of the selector alone, so each result has a
//! name here, and the rules that read a page are stated over those names.

use crate::error::ErrorKind;
use crate::text::{view_of, views, views_of};
use vstd::prelude::*;

verus! {

/// `scraper::Html`, a parsed document. Nothing is known of what is inside.
#[verifier::external_type_specification]
#[verifier::external_body]
pub struct ExHtml(scraper::Html);

/// `scraper::Selector`, a parsed CSS selector. Nothing is known of what is
/// inside.
#[verifier::external_type_specification]
#[verifier::external_body]
pub struct ExSelector(scraper::Selector);

/// `scraper::ElementRef`, an element of a parsed document. Nothing is known
/// of what is inside.
#[verifier::external_type_specification]
#[verifier::external_body]
pub struct ExElementRef<'a>(scraper::ElementRef<'a>);

/// The document that `scraper::Html::parse_document` builds from `markup`.
pub uninterp spec fn parsed_document(markup: Seq<char>) -> scraper::Html;

/// The selector that `scraper::Selector::parse` reads from `css`; `None`
/// where `css` is no selector.
pub uninterp spec fn parsed_selector(css: Seq<char>) -> Option<scraper::Selector>;

/// The elements of `document` that `selector` matches, in the order in
/// which `scraper::Html::select` yields them.
pub uninterp spec fn selected_elements(
    document: scraper::Html,
    selector: scraper::Selector,
) -> Seq<scraper::ElementRef<'static>>;

/// The text nodes below `element`, in document order and run together, as
/// `scraper::ElementRef::text` yields them.
pub uninterp spec fn element_text(element: scraper::ElementRef) -> Seq<char>;

/// The markup of what `element` holds, as `scraper::ElementRef::inner_html`
/// writes it.
pub uninterp spec fn element_inner_html(element: scraper::ElementRef) -> Seq<char>;

/// The value of the attribute `name` of `element`, as
/// `scraper::node::Element::attr` finds it; `None` where the element has no
/// such attribute.
pub uninterp spec fn element_attribute(element: scraper::ElementRef, name: Seq<char>) -> Option<
    Seq<char>,
>;

/// The longest body that is parsed, in characters. The parser keeps its
/// text in buffers whose lengths and capacities are 32-bit numbers, with a
/// capacity rounded up to a power of two, and stops the program where one
/// does not fit. A character takes at most four bytes, in the body and in
/// what the parser makes of it, so up to this length every buffer stays
/// below 2^31 bytes.
pub const MAX_BODY_CHARS: usize = 0x1FFF_FFFF;

/// Calls `scraper::Html::parse_document`. Trusted: the document depends on
/// the markup alone, and the parser reports no error: it takes any text
/// that its buffers can hold, which the bound on the length sees to.
#[verifier::external_body]
fn parse_document(markup: &str) -> (document: scraper::Html)
    requires
        markup@.len() <= MAX_BODY_CHARS,
    ensures
        document == parsed_document(markup@),
{
    scraper::Html::parse_document(markup)
}

/// Calls `scraper::Selector::parse` and drops the reason of a failure.
/// Trusted: whether `css` is a selector, and which, depends on `css` alone.
#[verifier::external_body]
fn parse_selector(css: &str) -> (selector: Option<scraper::Selector>)
    ensures
        selector == parsed_selector(css@),
{
    scraper::Selector::parse(css).ok()
}

/// Calls `scraper::Html::select` and collects what it yields. Trusted: the
/// elements and their order depend on the document and the selector alone.
#[verifier::external_body]
fn select<'a>(document: &'a scraper::Html, selector: &scraper::Selector) -> (elements: Vec<
    scraper::ElementRef<'a>,
>)
    ensures
        elements@ == selected_elements(*document, *selector),
{
    document.select(selector).collect()
}

/// Calls `scraper::ElementRef::text` and runs the pieces together. Trusted:
/// the text depends on the element alone.
#[verifier::external_body]
fn text_of(element: &scraper::ElementRef) -> (text: String)
    ensures
        text@ == element_text(*element),
{
    element.text().collect()
}

/// Calls `scraper::ElementRef::inner_html`. Trusted: the markup depends on
/// the element alone.
#[verifier::external_body]
fn inner_html_of(element: &scraper::ElementRef) -> (markup: String)
    ensures
        markup@ == element_inner_html(*element),
{
    element.inner_html()
}

/// Calls `scraper::node::Element::attr` on the element's value. Trusted:
/// the attribute's value depends on the element and the name alone.
#[verifier::external_body]
fn attribute_of(element: &scraper::ElementRef, name: &str) -> (value: Option<String>)
    ensures
        view_of(value) == element_attribute(*element, name@),
{
    element.value().attr(name).map(String::from)
}

/// The elements of `document` that the selector `css` matches; none where
/// `css` is no selector.
pub open spec fn selection(document: scraper::Html, css: Seq<char>) -> Seq<
    scraper::ElementRef<'static>,
> {
    match parsed_selector(css) {
        Some(selector) => selected_elements(document, selector),
        None => Seq::empty(),
    }
}

/// The text of each element that `css` matches in `document`.
pub open spec fn texts_in(document: scraper::Html, css: Seq<char>) -> Seq<Seq<char>> {
    selection(document, css).map_values(|element: scraper::ElementRef| element_text(element))
}

/// The inner markup of each element that `css` matches in `document`.
pub open spec fn markup_in(document: scraper::Html, css: Seq<char>) -> Seq<Seq<char>> {
    selection(document, css).map_values(
        |element: scraper::ElementRef| element_inner_html(element),
    )
}

/// The attribute `name` of each element that `css` matches in `document`.
pub open spec fn attributes_in(document: scraper::Html, css: Seq<char>, name: Seq<char>) -> Seq<
    Option<Seq<char>>,
> {
    selection(document, css).map_values(
        |element: scraper::ElementRef| element_attribute(element, name),
    )
}

/// Parses the body of a book page. Malformed markup is no error: it gives a
/// document in which the rules find less. A body of more than
/// [`MAX_BODY_CHARS`] characters is not parsed: it counts as a response
/// that cannot be retrieved.
pub fn parse_book_page(body: &str) -> (book_page: Result<scraper::Html, ErrorKind>)
    ensures
        match book_page {
            Ok(document) => body@.len() <= MAX_BODY_CHARS && document == parsed_document(body@),
            Err(error) => body@.len() > MAX_BODY_CHARS && error == ErrorKind::Fetch,
        },
{
    if body.unicode_len() <= MAX_BODY_CHARS {
        Ok(parse_document(body))
    } else {
        Err(ErrorKind::Fetch)
    }
}

/// The elements that `css` matches.
fn select_all<'a>(document: &'a scraper::Html, css: &str) -> (elements: Vec<
    scraper::ElementRef<'a>,
>)
    ensures
        elements@ == selection(*document, css@),
{
    match parse_selector(css) {
        Some(selector) => select(document, &selector),
        None => Vec::new(),
    }
}

/// The text of each element that `css` matches.
pub fn select_texts(document: &scraper::Html, css: &str) -> (texts: Vec<String>)
    ensures
        views(texts@) == texts_in(*document, css@),
{
    let elements = select_all(document, css);
    let mut texts: Vec<String> = Vec::new();
    let mut i: usize = 0;
    while i < elements.len()
        invariant
            i <= elements.len(),
            texts.len() == i,
            forall|k: int| 0 <= k < i ==> (#[trigger] texts[k])@ == element_text(elements[k]),
        decreases elements.len() - i,
    {
        texts.push(text_of(&elements[i]));
        i += 1;
    }
    assert(views(texts@) =~= texts_in(*document, css@));
    texts
}

/// The inner markup of each element that `css` matches.
pub fn select_markup(document: &scraper::Html, css: &str) -> (markup: Vec<String>)
    ensures
        views(markup@) == markup_in(*document, css@),
{
    let elements = select_all(document, css);
    let mut markup: Vec<String> = Vec::new();
    let mut i: usize = 0;
    while i < elements.len()
        invariant
            i <= elements.len(),
            markup.len() == i,
            forall|k: int|
                0 <= k < i ==> (#[trigger] markup[k])@ == element_inner_html(elements[k]),
        decreases elements.len() - i,
    {
        markup.push(inner_html_of(&elements[i]));
        i += 1;
    }
    assert(views(markup@) =~= markup_in(*document, css@));
    markup
}

/// The attribute `name` of each element that `css` matches.
pub fn select_attributes(document: &scraper::Html, css: &str, name: &str) -> (values: Vec<
    Option<String>,
>)
    ensures
        views_of(values@) == attributes_in(*document, css@, name@),
{
    let elements = select_all(document, css);
    let mut values: Vec<Option<String>> = Vec::new();
    let mut i: usize = 0;
    while i < elements.len()
        invariant
            i <= elements.len(),
            values.len() == i,
            forall|k: int|
                0 <= k < i ==> view_of(#[trigger] values[k]) == element_attribute(
                    elements[k],
                    name@,
                ),
        decreases elements.len() - i,
    {
        values.push(attribute_of(&elements[i], name));
        i += 1;
    }
    assert(views_of(values@) =~= attributes_in(*document, css@, name@));
    values
}

} // verus!
