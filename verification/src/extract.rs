//! Reading listings out of a page: the result blocks of the page, the text
//! of each field, and the listing that a block's fields make.

use crate::chars::CharClass;
use crate::entry::{BusinessEntry, EntryView};
use crate::markup::{
    attribute, attribute_value, document_of, element_text, first_match, fragment_nodes, inner_html,
    inner_markup, matches_in, parse_document, parse_fragment_nodes, parse_selector, select_all,
    select_first, selector_of, selector_parses, text_below,
};
use crate::normalize::{category_token, normalize_category};
use crate::text::{first_run, join, joined, split_whitespace, take_first_run, trim, trimmed, words};
use vstd::prelude::*;
use vstd::string::StringExecFns;

verus! {

/// The parts of a page that the extraction looks for, each given as a CSS
/// selector, and how a page's locality is read from its address.
pub struct ExtractionSchema {
    /// One result block.
    pub entries: String,
    /// The business name, inside a block.
    pub name: String,
    /// The address, inside a block.
    pub address: String,
    /// The phone numbers, inside a block.
    pub phone: String,
    /// The WhatsApp link, inside a block.
    pub whatsapp: String,
    /// The contact link, inside a block.
    pub contact: String,
    /// The link to the business's own site, inside a block.
    pub website: String,
    /// The attribute that holds a link's target.
    pub link_attribute: String,
    /// How many pieces of a page's address, cut at `/`, stand after the
    /// piece that names the locality. The locality is found by counting
    /// from the end, so it is right only for addresses of the usual depth.
    pub locality_depth: usize,
}

/// A part of an [`ExtractionSchema`] or the selector of the category list.
#[derive(Clone, Copy, Debug, PartialEq, Eq)]
pub enum SchemaField {
    Entries,
    Name,
    Address,
    Phone,
    Whatsapp,
    Contact,
    Website,
    Category,
}

/// A selector that is not valid CSS.
#[derive(Clone, Copy, Debug, PartialEq, Eq)]
pub struct SchemaError {
    /// The part whose selector was rejected.
    pub field: SchemaField,
}

/// An [`ExtractionSchema`] with its selectors parsed.
pub struct Selectors {
    entries: scraper::Selector,
    name: scraper::Selector,
    address: scraper::Selector,
    phone: scraper::Selector,
    whatsapp: scraper::Selector,
    contact: scraper::Selector,
    website: scraper::Selector,
    link_attribute: String,
}

/// The selector of one category in the page that lists the categories.
pub const CATEGORY_SELECTOR: &'static str = ".categorie__item";

impl Selectors {
    /// The selector of one result block.
    pub closed spec fn entries(self) -> scraper::Selector {
        self.entries
    }

    /// The selector of the business name.
    pub closed spec fn name(self) -> scraper::Selector {
        self.name
    }

    /// The selector of the address.
    pub closed spec fn address(self) -> scraper::Selector {
        self.address
    }

    /// The selector of the phone numbers.
    pub closed spec fn phone(self) -> scraper::Selector {
        self.phone
    }

    /// The selector of the WhatsApp link.
    pub closed spec fn whatsapp(self) -> scraper::Selector {
        self.whatsapp
    }

    /// The selector of the contact link.
    pub closed spec fn contact(self) -> scraper::Selector {
        self.contact
    }

    /// The selector of the link to the business's own site.
    pub closed spec fn website(self) -> scraper::Selector {
        self.website
    }

    /// The attribute that holds a link's target.
    pub closed spec fn link_attribute(self) -> Seq<char> {
        self.link_attribute@
    }

    /// Each selector is the one parsed from the schema's text for it, and
    /// the link attribute is the schema's.
    pub open spec fn is_compiled_from(self, schema: &ExtractionSchema) -> bool {
        &&& self.entries() == selector_of(schema.entries@)
        &&& self.name() == selector_of(schema.name@)
        &&& self.address() == selector_of(schema.address@)
        &&& self.phone() == selector_of(schema.phone@)
        &&& self.whatsapp() == selector_of(schema.whatsapp@)
        &&& self.contact() == selector_of(schema.contact@)
        &&& self.website() == selector_of(schema.website@)
        &&& self.link_attribute() == schema.link_attribute@
    }
}

/// The first part of the schema whose selector is rejected, in the order
/// entries, name, address, phone, WhatsApp, contact, website.
pub open spec fn first_rejected(schema: &ExtractionSchema) -> Option<SchemaField> {
    if !selector_parses(schema.entries@) {
        Some(SchemaField::Entries)
    } else if !selector_parses(schema.name@) {
        Some(SchemaField::Name)
    } else if !selector_parses(schema.address@) {
        Some(SchemaField::Address)
    } else if !selector_parses(schema.phone@) {
        Some(SchemaField::Phone)
    } else if !selector_parses(schema.whatsapp@) {
        Some(SchemaField::Whatsapp)
    } else if !selector_parses(schema.contact@) {
        Some(SchemaField::Contact)
    } else if !selector_parses(schema.website@) {
        Some(SchemaField::Website)
    } else {
        None
    }
}

fn parse_field(css: &str, field: SchemaField) -> (parsed: Result<scraper::Selector, SchemaError>)
    ensures
        parsed is Ok <==> selector_parses(css@),
        parsed matches Ok(selector) ==> selector == selector_of(css@),
        parsed matches Err(e) ==> e.field == field,
{
    match parse_selector(css) {
        Ok(selector) => Ok(selector),
        Err(_) => Err(SchemaError { field }),
    }
}

impl ExtractionSchema {
    /// The schema of the result pages of the site.
    pub fn paginegialle() -> (schema: ExtractionSchema)
        ensures
            schema.entries@ == ".search-itm"@,
            schema.name@ == ".search-itm__rag"@,
            schema.address@ == ".search-itm__adr"@,
            schema.phone@ == ".search-itm__phone"@,
            schema.whatsapp@ == "a[data-pag=\"whatsapp\"]"@,
            schema.contact@ == "#contattaci_btn"@,
            schema.website@ == ".bttn.bttn--white.bttn--blank.shinystat_ssxl"@,
            schema.link_attribute@ == "href"@,
            schema.locality_depth == 2,
    {
        ExtractionSchema {
            entries: String::from_str(".search-itm"),
            name: String::from_str(".search-itm__rag"),
            address: String::from_str(".search-itm__adr"),
            phone: String::from_str(".search-itm__phone"),
            whatsapp: String::from_str("a[data-pag=\"whatsapp\"]"),
            contact: String::from_str("#contattaci_btn"),
            website: String::from_str(".bttn.bttn--white.bttn--blank.shinystat_ssxl"),
            link_attribute: String::from_str("href"),
            locality_depth: 2,
        }
    }

    /// Parses the selectors of the schema. Fails on the first selector that
    /// is rejected, and names it.
    pub fn compile(&self) -> (compiled: Result<Selectors, SchemaError>)
        ensures
            compiled is Ok <==> first_rejected(self) is None,
            compiled matches Ok(selectors) ==> selectors.is_compiled_from(self),
            compiled matches Err(e) ==> first_rejected(self) == Some(e.field),
    {
        let entries = match parse_field(self.entries.as_str(), SchemaField::Entries) {
            Ok(selector) => selector,
            Err(e) => {
                return Err(e);
            },
        };
        let name = match parse_field(self.name.as_str(), SchemaField::Name) {
            Ok(selector) => selector,
            Err(e) => {
                return Err(e);
            },
        };
        let address = match parse_field(self.address.as_str(), SchemaField::Address) {
            Ok(selector) => selector,
            Err(e) => {
                return Err(e);
            },
        };
        let phone = match parse_field(self.phone.as_str(), SchemaField::Phone) {
            Ok(selector) => selector,
            Err(e) => {
                return Err(e);
            },
        };
        let whatsapp = match parse_field(self.whatsapp.as_str(), SchemaField::Whatsapp) {
            Ok(selector) => selector,
            Err(e) => {
                return Err(e);
            },
        };
        let contact = match parse_field(self.contact.as_str(), SchemaField::Contact) {
            Ok(selector) => selector,
            Err(e) => {
                return Err(e);
            },
        };
        let website = match parse_field(self.website.as_str(), SchemaField::Website) {
            Ok(selector) => selector,
            Err(e) => {
                return Err(e);
            },
        };
        Ok(
            Selectors {
                entries,
                name,
                address,
                phone,
                whatsapp,
                contact,
                website,
                link_attribute: self.link_attribute.clone(),
            },
        )
    }
}

/// The texts that count among the nodes of a parsed fragment: the text of
/// each text node, trimmed of white space, unless nothing is left of it.
pub open spec fn text_tokens(nodes: Seq<Option<Seq<char>>>) -> Seq<Seq<char>>
    decreases nodes.len(),
{
    if nodes.len() == 0 {
        Seq::empty()
    } else {
        let before = text_tokens(nodes.drop_last());
        match nodes.last() {
            Some(text) => if trimmed(text, CharClass::Whitespace).len() > 0 {
                before.push(trimmed(text, CharClass::Whitespace))
            } else {
                before
            },
            None => before,
        }
    }
}

/// The text with each run of white space replaced by one space, and none at
/// either end.
pub open spec fn single_spaced(text: Seq<char>) -> Seq<char> {
    joined(words(text), seq![' '])
}

/// The visible text of a parsed fragment: its text tokens with one space
/// between each two, and every run of white space inside a token replaced
/// by one space.
pub open spec fn flattened_text(nodes: Seq<Option<Seq<char>>>) -> Seq<char> {
    single_spaced(joined(text_tokens(nodes), seq![' ']))
}

/// The visible text of a piece of markup: the markup is trimmed of white
/// space, parsed as a fragment, and flattened.
pub open spec fn markup_text(markup: Seq<char>) -> Seq<char> {
    flattened_text(fragment_nodes(trimmed(markup, CharClass::Whitespace)))
}

/// The visible text of the first element below `element` that matches
/// `selector`; the empty text when nothing matches.
pub open spec fn text_of_first(element: scraper::ElementRef, selector: scraper::Selector) -> Seq<
    char,
> {
    match first_match(element, selector) {
        Some(found) => markup_text(inner_markup(found)),
        None => Seq::empty(),
    }
}

/// The tokens taken two at a time, each two joined by a hyphen. A token
/// left over at the end makes no pair.
pub open spec fn phone_pairs(tokens: Seq<Seq<char>>) -> Seq<Seq<char>> {
    Seq::new(tokens.len() / 2, |i: int| tokens[2 * i] + seq!['-'] + tokens[2 * i + 1])
}

/// The phone text made of the tokens: prefix and number paired as
/// `prefix-number`, the pairs separated by `" | "`.
pub open spec fn paired_phones(tokens: Seq<Seq<char>>) -> Seq<char> {
    joined(phone_pairs(tokens), seq![' ', '|', ' '])
}

/// Flattens the nodes of a parsed fragment into its visible text.
pub fn flatten_text(nodes: &Vec<Option<String>>) -> (text: String)
    ensures
        text@ == flattened_text(nodes.deep_view()),
{
    let mut tokens: Vec<String> = Vec::new();
    let mut i: usize = 0;
    while i < nodes.len()
        invariant
            i <= nodes.len(),
            tokens.deep_view() == text_tokens(nodes.deep_view().take(i as int)),
        decreases nodes.len() - i,
    {
        let ghost next = nodes.deep_view().take(i + 1);
        assert(next.drop_last() == nodes.deep_view().take(i as int));
        assert(next.last() == nodes[i as int].deep_view());
        match &nodes[i] {
            Some(text) => {
                let token = trim(text.as_str(), CharClass::Whitespace);
                if !token.as_str().is_empty() {
                    let ghost before = tokens.deep_view();
                    tokens.push(token);
                    assert(tokens.deep_view() == before.push(token@));
                }
            },
            None => {},
        }
        i += 1;
    }
    assert(nodes.deep_view().take(nodes.len() as int) == nodes.deep_view());
    proof {
        reveal_strlit(" ");
        assert(" "@ == seq![' ']);
    }
    let spaced = join(&tokens, " ");
    single_space(spaced.as_str())
}

/// The visible text of a piece of markup.
pub fn markup_to_text(markup: &str) -> (text: String)
    ensures
        text@ == markup_text(markup@),
{
    let inner = trim(markup, CharClass::Whitespace);
    let nodes = parse_fragment_nodes(inner.as_str());
    flatten_text(&nodes)
}

/// The visible text of the first element below `element` that matches
/// `selector`; the empty text when nothing matches.
pub fn extract_text_from_html(element: &scraper::ElementRef, selector: &scraper::Selector) -> (text:
    String)
    ensures
        text@ == text_of_first(*element, *selector),
{
    match select_first(element, selector) {
        Some(found) => {
            let markup = inner_html(&found);
            markup_to_text(markup.as_str())
        },
        None => String::new(),
    }
}

/// Replaces each run of white space by one space and trims both ends.
pub fn single_space(text: &str) -> (out: String)
    ensures
        out@ == single_spaced(text@),
{
    let tokens = split_whitespace(text);
    proof {
        reveal_strlit(" ");
        assert(" "@ == seq![' ']);
    }
    join(&tokens, " ")
}

/// Pairs the tokens of a phone text as `prefix-number` and joins the pairs
/// with `" | "`.
pub fn pair_phones(tokens: &Vec<String>) -> (phones: String)
    ensures
        phones@ == paired_phones(tokens.deep_view()),
{
    let mut pairs: Vec<String> = Vec::new();
    let count = tokens.len() / 2;
    let mut i: usize = 0;
    while i < count
        invariant
            i <= count,
            count == tokens.len() / 2,
            pairs.len() == i,
            forall|k: int| 0 <= k < i ==> (#[trigger] pairs[k])@ == phone_pairs(tokens.deep_view())[k],
        decreases count - i,
    {
        let mut pair = tokens[2 * i].clone();
        pair.push('-');
        pair.append(tokens[2 * i + 1].as_str());
        assert(pair@ == tokens[2 * i]@ + seq!['-'] + tokens[2 * i + 1]@);
        pairs.push(pair);
        i += 1;
    }
    assert(pairs.deep_view() =~= phone_pairs(tokens.deep_view()));
    proof {
        reveal_strlit(" | ");
        assert(" | "@ == seq![' ', '|', ' ']);
    }
    join(&pairs, " | ")
}

/// What is read from one result block before any rule is applied: the
/// visible text of the three text fields, and the target of each link that
/// the block has (empty where the link has no target).
#[derive(Debug, PartialEq, Eq)]
pub struct RawBlock {
    pub name: String,
    pub address: String,
    pub phones: String,
    pub whatsapp_link: Option<String>,
    pub contact_link: Option<String>,
    pub website_link: Option<String>,
}

/// The model of a [`RawBlock`].
pub struct RawBlockView {
    pub name: Seq<char>,
    pub address: Seq<char>,
    pub phones: Seq<char>,
    pub whatsapp_link: Option<Seq<char>>,
    pub contact_link: Option<Seq<char>>,
    pub website_link: Option<Seq<char>>,
}

impl View for RawBlock {
    type V = RawBlockView;

    open spec fn view(&self) -> RawBlockView {
        RawBlockView {
            name: self.name@,
            address: self.address@,
            phones: self.phones@,
            whatsapp_link: self.whatsapp_link.deep_view(),
            contact_link: self.contact_link.deep_view(),
            website_link: self.website_link.deep_view(),
        }
    }
}

impl DeepView for RawBlock {
    type V = RawBlockView;

    open spec fn deep_view(&self) -> RawBlockView {
        self@
    }
}

/// The listing that a block's fields make: the name and the address
/// single-spaced, the phone tokens paired, the WhatsApp number as the first
/// run of digits in the link, the other links as they are.
pub open spec fn block_entry(block: RawBlockView) -> EntryView {
    EntryView {
        name: single_spaced(block.name),
        address: single_spaced(block.address),
        phones: paired_phones(words(block.phones)),
        whatsapp: match block.whatsapp_link {
            Some(link) => Some(first_run(link, CharClass::Numeric)),
            None => None,
        },
        website: block.website_link,
        contact_url: block.contact_link,
    }
}

/// The listings of the blocks, block by block.
pub open spec fn block_entries(blocks: Seq<RawBlockView>) -> Seq<EntryView> {
    Seq::new(blocks.len(), |i: int| block_entry(blocks[i]))
}

/// Makes the listing of one block.
pub fn entry_from_block(block: RawBlock) -> (entry: BusinessEntry)
    ensures
        entry@ == block_entry(block@),
{
    let name = single_space(block.name.as_str());
    let address = single_space(block.address.as_str());
    let tokens = split_whitespace(block.phones.as_str());
    let phones = pair_phones(&tokens);
    let whatsapp = match &block.whatsapp_link {
        Some(link) => Some(take_first_run(link.as_str(), CharClass::Numeric)),
        None => None,
    };
    BusinessEntry {
        name,
        address,
        phones,
        whatsapp,
        website: block.website_link,
        contact_url: block.contact_link,
    }
}

/// What one page yields.
#[derive(Debug, PartialEq, Eq)]
pub enum RawExtraction {
    /// The page has result blocks; one listing for each, in page order.
    Records(Vec<BusinessEntry>),
    /// The page has no result block.
    Empty,
}

/// The model of a [`RawExtraction`].
pub enum ExtractionView {
    Records(Seq<EntryView>),
    Empty,
}

impl View for RawExtraction {
    type V = ExtractionView;

    open spec fn view(&self) -> ExtractionView {
        match self {
            RawExtraction::Records(entries) => ExtractionView::Records(entries.deep_view()),
            RawExtraction::Empty => ExtractionView::Empty,
        }
    }
}

/// What a page with the given blocks yields.
pub open spec fn page_outcome(blocks: Seq<RawBlockView>) -> ExtractionView {
    if blocks.len() == 0 {
        ExtractionView::Empty
    } else {
        ExtractionView::Records(block_entries(blocks))
    }
}

/// Makes what a page with the given blocks yields.
pub fn extraction_from_blocks(blocks: Vec<RawBlock>) -> (out: RawExtraction)
    ensures
        out@ == page_outcome(blocks.deep_view()),
{
    if blocks.len() == 0 {
        return RawExtraction::Empty;
    }
    let ghost given = blocks.deep_view();
    let mut entries: Vec<BusinessEntry> = Vec::new();
    for block in it: blocks
        invariant
            it.seq().len() == given.len(),
            forall|k: int| 0 <= k < given.len() ==> (#[trigger] it.seq()[k])@ == given[k],
            entries.len() == it.index(),
            forall|k: int| 0 <= k < entries.len() ==> (#[trigger] entries[k])@ == block_entry(given[k]),
    {
        entries.push(entry_from_block(block));
    }
    assert(entries.deep_view() =~= block_entries(given));
    RawExtraction::Records(entries)
}

fn read_link(element: &scraper::ElementRef, selector: &scraper::Selector, name: &str) -> (link:
    Option<String>)
    ensures
        link.deep_view() == link_of_first(*element, *selector, name@),
{
    let found = match select_first(element, selector) {
        Some(found) => Some(attribute(&found, name)),
        None => None,
    };
    link_target(found)
}

/// The link that a block shows, given whether the block has the link
/// element and, if it has, the value of the element's target attribute: no
/// link without the element, an empty target for an element without the
/// attribute, and the attribute's value as it is otherwise.
pub open spec fn shown_link(found: Option<Option<Seq<char>>>) -> Option<Seq<char>> {
    match found {
        Some(Some(target)) => Some(target),
        Some(None) => Some(Seq::empty()),
        None => None,
    }
}

/// The link shown by the first element below `element` that matches
/// `selector`, read from the attribute `name`.
pub open spec fn link_of_first(
    element: scraper::ElementRef,
    selector: scraper::Selector,
    name: Seq<char>,
) -> Option<Seq<char>> {
    shown_link(
        match first_match(element, selector) {
            Some(found) => Some(attribute_value(found, name)),
            None => None,
        },
    )
}

/// Decides the link that a block shows from what was found of the link
/// element and of its target attribute.
pub fn link_target(found: Option<Option<String>>) -> (link: Option<String>)
    ensures
        link.deep_view() == shown_link(found.deep_view()),
{
    match found {
        Some(Some(target)) => Some(target),
        Some(None) => Some(String::new()),
        None => None,
    }
}

/// What is read from one result block: the visible text of the first match
/// of each text selector, and the link of the first match of each link
/// selector.
pub open spec fn block_of(element: scraper::ElementRef, selectors: &Selectors) -> RawBlockView {
    RawBlockView {
        name: text_of_first(element, selectors.name()),
        address: text_of_first(element, selectors.address()),
        phones: text_of_first(element, selectors.phone()),
        whatsapp_link: link_of_first(element, selectors.whatsapp(), selectors.link_attribute()),
        contact_link: link_of_first(element, selectors.contact(), selectors.link_attribute()),
        website_link: link_of_first(element, selectors.website(), selectors.link_attribute()),
    }
}

/// The blocks read from a page: one for each element of the parsed page
/// that matches the selector of result blocks, in page order.
pub open spec fn page_blocks(body: Seq<char>, selectors: &Selectors) -> Seq<RawBlockView> {
    let found = matches_in(&document_of(body), selectors.entries());
    Seq::new(found.len(), |i: int| block_of(found[i], selectors))
}

fn read_block(element: &scraper::ElementRef, selectors: &Selectors) -> (block: RawBlock)
    ensures
        block@ == block_of(*element, selectors),
{
    RawBlock {
        name: extract_text_from_html(element, &selectors.name),
        address: extract_text_from_html(element, &selectors.address),
        phones: extract_text_from_html(element, &selectors.phone),
        whatsapp_link: read_link(element, &selectors.whatsapp, selectors.link_attribute.as_str()),
        contact_link: read_link(element, &selectors.contact, selectors.link_attribute.as_str()),
        website_link: read_link(element, &selectors.website, selectors.link_attribute.as_str()),
    }
}

/// Reads the listings of a page. A page without result blocks yields
/// [`RawExtraction::Empty`]; any other page yields one listing for each of
/// its blocks, in page order, made from what the block shows as
/// [`block_entry`] says.
pub fn extract(body: &str, selectors: &Selectors) -> (out: RawExtraction)
    ensures
        out@ == page_outcome(page_blocks(body@, selectors)),
{
    let document = parse_document(body);
    let found = select_all(&document, &selectors.entries);
    let mut blocks: Vec<RawBlock> = Vec::new();
    let mut i: usize = 0;
    while i < found.len()
        invariant
            i <= found.len(),
            blocks.len() == i,
            forall|k: int| 0 <= k < i ==> (#[trigger] blocks[k])@ == block_of(found[k], selectors),
        decreases found.len() - i,
    {
        blocks.push(read_block(&found[i], selectors));
        i += 1;
    }
    assert(blocks.deep_view() =~= page_blocks(body@, selectors));
    extraction_from_blocks(blocks)
}

/// The labels of a page of categories: the text below each element of the
/// parsed page that the selector made of `item_css` matches, in page order.
pub open spec fn page_labels(html: Seq<char>, item_css: Seq<char>) -> Seq<Seq<char>> {
    let found = matches_in(&document_of(html), selector_of(item_css));
    Seq::new(found.len(), |i: int| text_below(found[i]))
}

/// The tokens of the texts, text by text.
pub open spec fn category_tokens(labels: Seq<Seq<char>>) -> Seq<Seq<char>> {
    Seq::new(labels.len(), |i: int| category_token(labels[i]))
}

/// Reads the known categories from the page that lists them: the token of
/// each element that `item_css` selects, in page order. Fails when
/// `item_css` is rejected as a selector, and only then.
pub fn categories_from_page(html: &str, item_css: &str) -> (found: Result<Vec<String>, SchemaError>)
    ensures
        found is Ok <==> selector_parses(item_css@),
        found matches Err(e) ==> e.field == SchemaField::Category,
        found matches Ok(tokens) ==> tokens.deep_view() == category_tokens(
            page_labels(html@, item_css@),
        ),
{
    let selector = match parse_field(item_css, SchemaField::Category) {
        Ok(selector) => selector,
        Err(e) => {
            return Err(e);
        },
    };
    let document = parse_document(html);
    let items = select_all(&document, &selector);
    let mut tokens: Vec<String> = Vec::new();
    let mut i: usize = 0;
    while i < items.len()
        invariant
            i <= items.len(),
            tokens.len() == i,
            forall|k: int|
                0 <= k < i ==> (#[trigger] tokens[k])@ == category_token(text_below(items[k])),
        decreases items.len() - i,
    {
        let label = element_text(&items[i]);
        tokens.push(normalize_category(label.as_str()));
        i += 1;
    }
    assert(tokens.deep_view() =~= category_tokens(page_labels(html@, item_css@)));
    Ok(tokens)
}

/// Reads the known categories from the page that lists them.
pub fn get_all_categories(html: &str) -> (found: Result<Vec<String>, SchemaError>)
    ensures
        found is Ok <==> selector_parses(CATEGORY_SELECTOR@),
        found matches Err(e) ==> e.field == SchemaField::Category,
        found matches Ok(tokens) ==> tokens.deep_view() == category_tokens(
            page_labels(html@, CATEGORY_SELECTOR@),
        ),
{
    categories_from_page(html, CATEGORY_SELECTOR)
}

} // verus!
