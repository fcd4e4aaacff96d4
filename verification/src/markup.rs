//! Parsed markup as plain values: what a selector picks out of a page, and
//! the walk over a page's nodes that gathers its visible text.

use vstd::prelude::*;
use ego_tree::iter::Edge;
use scraper::{Html, Node, Selector};
use crate::text::texts_of;

verus! {

/// One step of a walk over a subtree in document order. Every node is
/// entered once and left once; what lies between the two is its content.
#[derive(Debug)]
pub enum MarkupEvent {
    /// An element is entered; the string is its tag name.
    Element(String),
    /// A text node is entered; the string is its text.
    Text(String),
    /// A node of any other kind is entered.
    Other,
    /// The node entered last and not yet left is left.
    Close,
}

/// A [`MarkupEvent`] as a mathematical value.
pub ghost enum EventView {
    Element(Seq<char>),
    Text(Seq<char>),
    Other,
    Close,
}

impl View for MarkupEvent {
    type V = EventView;

    open spec fn view(&self) -> EventView {
        match self {
            MarkupEvent::Element(name) => EventView::Element(name@),
            MarkupEvent::Text(text) => EventView::Text(text@),
            MarkupEvent::Other => EventView::Other,
            MarkupEvent::Close => EventView::Close,
        }
    }
}

/// The views of a sequence of events.
pub open spec fn events_of(v: Seq<MarkupEvent>) -> Seq<EventView> {
    v.map_values(|e: MarkupEvent| e@)
}

/// The views of a sequence of attribute values, each of which may be absent.
pub open spec fn values_of(v: Seq<Option<String>>) -> Seq<Option<Seq<char>>> {
    v.map_values(|o: Option<String>| crate::text::text_of(o))
}

/// The walks over the elements of the page `raw` that `selector` matches, one
/// after the other; `None` where `selector` is no selector.
pub uninterp spec fn selected_events(raw: Seq<char>, selector: Seq<char>) -> Option<Seq<EventView>>;

/// For each element of the page `raw` that `selector` matches, the value of
/// its attribute `attr`, if it has one; `None` where `selector` is no selector.
pub uninterp spec fn selected_attrs(raw: Seq<char>, selector: Seq<char>, attr: Seq<char>) -> Option<Seq<Option<Seq<char>>>>;

/// For each element of the page `raw` that `selector` matches, its content
/// written back as markup; `None` where `selector` is no selector.
pub uninterp spec fn selected_inner_html(raw: Seq<char>, selector: Seq<char>) -> Option<Seq<Seq<char>>>;

/// Parses `raw` with `scraper::Html::parse_document` and `selector` with
/// `scraper::Selector::parse`, takes the matching elements from
/// `Html::select`, and walks each with `ego_tree::NodeRef::traverse`. Trusted:
/// the result is a function of the two strings, named [`selected_events`];
/// nothing is claimed of what it holds.
#[verifier::external_body]
pub(crate) fn select_events(raw: &str, selector: &str) -> (r: Option<Vec<MarkupEvent>>)
    ensures
        match r {
            Some(v) => selected_events(raw@, selector@) == Some(events_of(v@)),
            None => selected_events(raw@, selector@) is None,
        },
{
    let selector = Selector::parse(selector).ok()?;
    let page = Html::parse_document(raw);
    Some(page.select(&selector).flat_map(|e| e.traverse()).map(|edge| match edge {
        Edge::Open(node) => match node.value() {
            Node::Element(e) => MarkupEvent::Element(e.name().to_string()),
            Node::Text(t) => MarkupEvent::Text(t.text.to_string()),
            Node::Document | Node::Fragment | Node::Doctype(_) | Node::Comment(_)
            | Node::ProcessingInstruction(_) => MarkupEvent::Other,
        },
        Edge::Close(_) => MarkupEvent::Close,
    }).collect())
}

/// Parses as [`select_events`] does and reads, with
/// `scraper::ElementRef::attr`, the attribute `attr` of each matching element.
/// Trusted: the result is a function of the three strings, named
/// [`selected_attrs`]; nothing is claimed of what it holds.
#[verifier::external_body]
pub(crate) fn select_attrs(raw: &str, selector: &str, attr: &str) -> (r: Option<Vec<Option<String>>>)
    ensures
        match r {
            Some(v) => selected_attrs(raw@, selector@, attr@) == Some(values_of(v@)),
            None => selected_attrs(raw@, selector@, attr@) is None,
        },
{
    let selector = Selector::parse(selector).ok()?;
    let page = Html::parse_document(raw);
    Some(page.select(&selector).map(|e| e.attr(attr).map(|v| v.to_string())).collect())
}

/// Parses as [`select_events`] does and serialises, with
/// `scraper::ElementRef::inner_html`, the content of each matching element.
/// Trusted: the result is a function of the two strings, named
/// [`selected_inner_html`]; nothing is claimed of what it holds.
#[verifier::external_body]
pub(crate) fn select_inner_html(raw: &str, selector: &str) -> (r: Option<Vec<String>>)
    ensures
        match r {
            Some(v) => selected_inner_html(raw@, selector@) == Some(texts_of(v@)),
            None => selected_inner_html(raw@, selector@) is None,
        },
{
    let selector = Selector::parse(selector).ok()?;
    let page = Html::parse_document(raw);
    Some(page.select(&selector).map(|e| e.inner_html()).collect())
}

} // verus!
