//! The HTML document model of the `scraper` crate, as the extractor uses
//! it: parsing a fragment, selecting elements by CSS selector, and reading
//! an element's inner HTML or an attribute.
//!
//! A parsed document keeps the text it was parsed from, and its nodes are
//! named by their position in the document's node list. What a selection or
//! a read gives back is a function of the text, the positions and the
//! selector or attribute name alone, and is named here.

use vstd::prelude::*;

use scraper::{ElementRef, Html, Selector};

verus! {

#[verifier::external_type_specification]
#[verifier::external_body]
pub struct ExHtml(scraper::Html);

/// Whether `scraper::Selector::parse` accepts the text as a selector list.
pub uninterp spec fn selector_parses(selector: Seq<char>) -> bool;

/// Whether the node at position `node` of the parsed fragment `text` is an
/// element (`scraper::ElementRef::wrap` accepts it).
pub uninterp spec fn element_at(text: Seq<char>, node: usize) -> bool;

/// The position of the root `<html>` element of the parsed fragment `text`.
pub uninterp spec fn root_of(text: Seq<char>) -> usize;

/// The positions of the descendants of the element at `scope` that match
/// `selector`, in document order (`scraper::ElementRef::select`).
pub uninterp spec fn selected(text: Seq<char>, scope: usize, selector: Seq<char>) -> Seq<usize>;

/// The inner HTML of the element at `node` (`scraper::ElementRef::inner_html`).
pub uninterp spec fn inner_html_at(text: Seq<char>, node: usize) -> Seq<char>;

/// The value of the attribute `name` of the element at `node`, if it has it
/// (`scraper::ElementRef::attr`).
pub uninterp spec fn attribute_at(text: Seq<char>, node: usize, name: Seq<char>) -> Option<
    Seq<char>,
>;

/// A parsed HTML fragment, with the text it was parsed from. Its tree is
/// only ever made by parsing its text.
pub struct Document {
    text: String,
    tree: Html,
}

impl View for Document {
    type V = Seq<char>;

    closed spec fn view(&self) -> Seq<char> {
        self.text@
    }
}

/// Calls `scraper::Html::parse_fragment` on `text` and keeps both. Claimed:
/// the document's text is `text`. Parsing never fails: errors are recovered
/// from as HTML parsing prescribes.
#[verifier::external_body]
fn parse_document(text: &str) -> (res: Document)
    ensures
        res@ == text@,
{
    Document { text: text.to_string(), tree: Html::parse_fragment(text) }
}

/// Calls `scraper::Html::root_element` (the `<html>` element that fragment
/// parsing always creates) and gives its position in the node list, found
/// by binary search on the node ids, which increase with position. Claimed:
/// the position is [`root_of`] of the text, and holds an element.
#[verifier::external_body]
fn root_position(doc: &Document) -> (res: usize)
    ensures
        res == root_of(doc@),
        element_at(doc@, res),
{
    let ids: Vec<_> = doc.tree.tree.nodes().map(|n| n.id()).collect();
    ids.binary_search(&doc.tree.root_element().id()).unwrap()
}

/// Calls `scraper::Selector::parse` and `scraper::ElementRef::select` on the
/// element at `scope`, and gives the positions of the matches. Claimed:
/// nothing comes back exactly when the selector does not parse
/// ([`selector_parses`]); otherwise the positions are [`selected`], and
/// each holds an element.
#[verifier::external_body]
fn select_positions(doc: &Document, scope: usize, selector: &str) -> (res: Option<Vec<usize>>)
    requires
        element_at(doc@, scope),
    ensures
        res is Some <==> selector_parses(selector@),
        res matches Some(v) ==> v@ == selected(doc@, scope, selector@),
        res matches Some(v) ==> forall|i: int| 0 <= i < v@.len() ==> element_at(doc@, #[trigger] v@[i]),
{
    let selector = Selector::parse(selector).ok()?;
    let ids: Vec<_> = doc.tree.tree.nodes().map(|n| n.id()).collect();
    let scope = ElementRef::wrap(doc.tree.tree.nodes().nth(scope).unwrap()).unwrap();
    Some(scope.select(&selector).map(|e| ids.binary_search(&e.id()).unwrap()).collect())
}

/// Calls `scraper::ElementRef::inner_html` on the element at `node`.
/// Claimed: the text is [`inner_html_at`].
#[verifier::external_body]
fn inner_html_of(doc: &Document, node: usize) -> (res: String)
    requires
        element_at(doc@, node),
    ensures
        res@ == inner_html_at(doc@, node),
{
    ElementRef::wrap(doc.tree.tree.nodes().nth(node).unwrap()).unwrap().inner_html()
}

/// Calls `scraper::ElementRef::attr` on the element at `node`. Claimed: the
/// value is [`attribute_at`].
#[verifier::external_body]
fn attr_of(doc: &Document, node: usize, name: &str) -> (res: Option<String>)
    requires
        element_at(doc@, node),
    ensures
        res matches Some(v) ==> attribute_at(doc@, node, name@) == Some(v@),
        res is None ==> attribute_at(doc@, node, name@) is None,
{
    ElementRef::wrap(doc.tree.tree.nodes().nth(node).unwrap()).unwrap().attr(name).map(
        |value| value.to_string(),
    )
}

/// Why an element could not be read from a page.
#[derive(Debug)]
pub enum ExtractError {
    /// The selector is not valid CSS.
    Selector(String),
    /// No element matched the selector.
    Missing(String),
    /// The element lacks the attribute.
    Attribute(String),
}

/// The value of an [`ExtractError`].
pub enum Fault {
    Selector(Seq<char>),
    Missing(Seq<char>),
    Attribute(Seq<char>),
}

impl View for ExtractError {
    type V = Fault;

    open spec fn view(&self) -> Fault {
        match self {
            ExtractError::Selector(s) => Fault::Selector(s@),
            ExtractError::Missing(s) => Fault::Missing(s@),
            ExtractError::Attribute(s) => Fault::Attribute(s@),
        }
    }
}

/// All matches of `selector` under `scope`, in document order, or the
/// selector's error.
pub open spec fn many(text: Seq<char>, scope: usize, selector: Seq<char>) -> Result<
    Seq<usize>,
    Fault,
> {
    if selector_parses(selector) {
        Ok(selected(text, scope, selector))
    } else {
        Err(Fault::Selector(selector))
    }
}

/// The first match of `selector` under `scope`, if any, or the selector's
/// error.
pub open spec fn optional(text: Seq<char>, scope: usize, selector: Seq<char>) -> Result<
    Option<usize>,
    Fault,
> {
    match many(text, scope, selector) {
        Ok(v) => Ok(
            if v.len() == 0 {
                None
            } else {
                Some(v[0])
            },
        ),
        Err(f) => Err(f),
    }
}

/// The first match of `selector` under `scope`, or an error: the selector's,
/// or that nothing matches.
pub open spec fn single(text: Seq<char>, scope: usize, selector: Seq<char>) -> Result<usize, Fault> {
    match optional(text, scope, selector) {
        Ok(Some(n)) => Ok(n),
        Ok(None) => Err(Fault::Missing(selector)),
        Err(f) => Err(f),
    }
}

/// The value of the attribute `name` of the element at `node`, or an error
/// naming the attribute.
pub open spec fn attribute_value(text: Seq<char>, node: usize, name: Seq<char>) -> Result<
    Seq<char>,
    Fault,
> {
    match attribute_at(text, node, name) {
        Some(v) => Ok(v),
        None => Err(Fault::Attribute(name)),
    }
}

impl Document {
    /// The document parsed from `text`.
    pub fn parse(text: &str) -> (res: Document)
        ensures
            res@ == text@,
    {
        parse_document(text)
    }

    /// The position of the root element.
    pub fn root(&self) -> (res: usize)
        ensures
            res == root_of(self@),
            element_at(self@, res),
    {
        root_position(self)
    }

    /// The inner HTML of the element at `node`.
    pub fn inner_html(&self, node: usize) -> (res: String)
        requires
            element_at(self@, node),
        ensures
            res@ == inner_html_at(self@, node),
    {
        inner_html_of(self, node)
    }
}

/// All descendants of `scope` that match `selector`, in document order; an
/// error exactly when the selector does not parse.
pub fn select_many(doc: &Document, scope: usize, selector: &str) -> (res: Result<
    Vec<usize>,
    ExtractError,
>)
    requires
        element_at(doc@, scope),
    ensures
        res matches Ok(v) ==> many(doc@, scope, selector@) == Ok::<Seq<usize>, Fault>(v@),
        res matches Ok(v) ==> forall|i: int| 0 <= i < v@.len() ==> element_at(doc@, #[trigger] v@[i]),
        res matches Err(e) ==> many(doc@, scope, selector@) == Err::<Seq<usize>, Fault>(e@),
{
    match select_positions(doc, scope, selector) {
        Some(found) => Ok(found),
        None => Err(ExtractError::Selector(String::from_str(selector))),
    }
}

/// The first descendant of `scope` that matches `selector`, if any; an
/// error exactly when the selector does not parse.
pub fn select_optional(doc: &Document, scope: usize, selector: &str) -> (res: Result<
    Option<usize>,
    ExtractError,
>)
    requires
        element_at(doc@, scope),
    ensures
        res matches Ok(v) ==> optional(doc@, scope, selector@) == Ok::<Option<usize>, Fault>(v),
        res matches Ok(Some(n)) ==> element_at(doc@, n),
        res matches Err(e) ==> optional(doc@, scope, selector@) == Err::<Option<usize>, Fault>(e@),
{
    let found = select_many(doc, scope, selector)?;
    if found.len() == 0 {
        Ok(None)
    } else {
        Ok(Some(found[0]))
    }
}

/// The first descendant of `scope` that matches `selector`; an error when
/// the selector does not parse, or when nothing matches.
pub fn select_single(doc: &Document, scope: usize, selector: &str) -> (res: Result<
    usize,
    ExtractError,
>)
    requires
        element_at(doc@, scope),
    ensures
        res matches Ok(n) ==> single(doc@, scope, selector@) == Ok::<usize, Fault>(n) && element_at(
            doc@,
            n,
        ),
        res matches Err(e) ==> single(doc@, scope, selector@) == Err::<usize, Fault>(e@),
{
    match select_optional(doc, scope, selector)? {
        Some(element) => Ok(element),
        None => Err(ExtractError::Missing(String::from_str(selector))),
    }
}

/// The value of the attribute `name` of the element at `node`; an error
/// when it has none.
pub fn attribute(doc: &Document, node: usize, name: &str) -> (res: Result<String, ExtractError>)
    requires
        element_at(doc@, node),
    ensures
        res matches Ok(v) ==> attribute_value(doc@, node, name@) == Ok::<Seq<char>, Fault>(v@),
        res matches Err(e) ==> attribute_value(doc@, node, name@) == Err::<Seq<char>, Fault>(e@),
{
    required(attr_of(doc, node, name), name)
}

/// The value of the attribute `name` as read: the value where there is one,
/// an error naming the attribute where there is none.
pub fn required(value: Option<String>, name: &str) -> (res: Result<String, ExtractError>)
    ensures
        value matches Some(v) ==> (res matches Ok(r) && r == v),
        value is None ==> (res matches Err(e) && e matches ExtractError::Attribute(s) && s@
            == name@),
{
    match value {
        Some(value) => Ok(value),
        None => Err(ExtractError::Attribute(String::from_str(name))),
    }
}

} // verus!
