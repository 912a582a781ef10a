//! The calls into the `scraper` crate. Parsed documents, selectors and
//! element references are carried through as they are; whatever the
//! extraction reads from them is handed out as plain text.

use vstd::prelude::*;

verus! {

/// `scraper::Html`: a parsed document. Nothing inside it is visible here.
#[verifier::external_type_specification]
#[verifier::external_body]
pub struct ExHtml(scraper::Html);

/// `scraper::Selector`: a parsed selector group. Nothing inside it is
/// visible here.
#[verifier::external_type_specification]
#[verifier::external_body]
pub struct ExSelector(scraper::Selector);

/// `scraper::ElementRef`: a reference to one element of a parsed document.
/// Nothing inside it is visible here.
#[verifier::external_type_specification]
#[verifier::external_body]
pub struct ExElementRef<'a>(scraper::ElementRef<'a>);

/// `scraper::error::SelectorErrorKind`: why a selector was rejected. Nothing
/// inside it is visible here.
#[verifier::external_type_specification]
#[verifier::external_body]
pub struct ExSelectorErrorKind(scraper::error::SelectorErrorKind);

/// Whether `scraper::Selector::parse` accepts the text as a selector group.
pub uninterp spec fn selector_parses(css: Seq<char>) -> bool;

/// The selector that `scraper::Selector::parse` makes of an accepted text.
pub uninterp spec fn selector_of(css: Seq<char>) -> scraper::Selector;

/// The document that `scraper::Html::parse_document` makes of a text.
pub uninterp spec fn document_of(body: Seq<char>) -> scraper::Html;

/// The elements of the document that match the selector, in the order in
/// which `scraper::Html::select` yields them.
pub uninterp spec fn matches_in(document: &scraper::Html, selector: scraper::Selector) -> Seq<
    scraper::ElementRef,
>;

/// The first element below `element` that matches the selector, as
/// `scraper::ElementRef::select` yields it first; `None` when it yields
/// nothing.
pub uninterp spec fn first_match(element: scraper::ElementRef, selector: scraper::Selector) -> Option<
    scraper::ElementRef,
>;

/// The markup inside the element, as `scraper::ElementRef::inner_html`
/// writes it.
pub uninterp spec fn inner_markup(element: scraper::ElementRef) -> Seq<char>;

/// The value of the element's attribute of the given name, as
/// `scraper::ElementRef::attr` finds it; `None` when the element has no
/// such attribute.
pub uninterp spec fn attribute_value(element: scraper::ElementRef, name: Seq<char>) -> Option<
    Seq<char>,
>;

/// The text nodes below the element, one after the other, as
/// `scraper::ElementRef::text` yields them.
pub uninterp spec fn text_below(element: scraper::ElementRef) -> Seq<char>;

/// For each node of the tree that `scraper::Html::parse_fragment` builds
/// from the markup, in the order in which the parser made the nodes: the
/// node's text if it is a text node, `None` otherwise.
pub uninterp spec fn fragment_nodes(markup: Seq<char>) -> Seq<Option<Seq<char>>>;

/// `scraper::Selector::parse`: whether the text is accepted, and the
/// selector made of it, depend on the text alone, as named by
/// [`selector_parses`] and [`selector_of`]. Nothing is claimed about the
/// error that comes back.
#[verifier::external_body]
pub(crate) fn parse_selector(css: &str) -> (parsed: Result<
    scraper::Selector,
    scraper::error::SelectorErrorKind,
>)
    ensures
        parsed is Ok <==> selector_parses(css@),
        parsed matches Ok(selector) ==> selector == selector_of(css@),
{
    scraper::Selector::parse(css)
}

/// `scraper::Html::parse_document`: parsing never fails, and the document
/// depends on the text alone, as named by [`document_of`].
#[verifier::external_body]
pub(crate) fn parse_document(body: &str) -> (document: scraper::Html)
    ensures
        document == document_of(body@),
{
    scraper::Html::parse_document(body)
}

/// `scraper::Html::select`, collected: the elements of the document that
/// match the selector, in the order in which they are yielded, as named by
/// [`matches_in`].
#[verifier::external_body]
pub(crate) fn select_all<'a>(document: &'a scraper::Html, selector: &scraper::Selector) -> (found:
    Vec<scraper::ElementRef<'a>>)
    ensures
        found@ == matches_in(document, *selector),
{
    document.select(selector).collect()
}

/// `scraper::ElementRef::select`, first item: the first element below
/// `element` that matches the selector, if there is one, as named by
/// [`first_match`].
#[verifier::external_body]
pub(crate) fn select_first<'a>(
    element: &scraper::ElementRef<'a>,
    selector: &scraper::Selector,
) -> (found: Option<scraper::ElementRef<'a>>)
    ensures
        found == first_match(*element, *selector),
{
    element.select(selector).next()
}

/// `scraper::ElementRef::inner_html`: the markup inside the element, as
/// named by [`inner_markup`].
#[verifier::external_body]
pub(crate) fn inner_html(element: &scraper::ElementRef) -> (markup: String)
    ensures
        markup@ == inner_markup(*element),
{
    element.inner_html()
}

/// `scraper::ElementRef::attr`: the value of the named attribute, if the
/// element has it, as named by [`attribute_value`].
#[verifier::external_body]
pub(crate) fn attribute(element: &scraper::ElementRef, name: &str) -> (value: Option<String>)
    ensures
        value.deep_view() == attribute_value(*element, name@),
{
    element.attr(name).map(|value| value.to_string())
}

/// `scraper::ElementRef::text`, concatenated: the text nodes below the
/// element, one after the other, as named by [`text_below`].
#[verifier::external_body]
pub(crate) fn element_text(element: &scraper::ElementRef) -> (text: String)
    ensures
        text@ == text_below(*element),
{
    element.text().collect()
}

/// `scraper::Html::parse_fragment`, then the nodes of its tree in the order
/// in which the tree holds them: the text of each text node, `None` for each
/// other node. The result depends on the markup alone, as named by
/// [`fragment_nodes`].
#[verifier::external_body]
pub(crate) fn parse_fragment_nodes(markup: &str) -> (nodes: Vec<Option<String>>)
    ensures
        nodes.deep_view() == fragment_nodes(markup@),
{
    scraper::Html::parse_fragment(markup).tree.into_iter().map(
        |node|
            match node {
                scraper::Node::Text(text) => Some(text.to_string()),
                _ => None,
            },
    ).collect()
}

} // verus!
