//! A parsed document as the sequence of events that a walk in document
//! order meets: an element opens, a text node, an element closes.

use ego_tree::iter::Edge;
use scraper::{Html, Node};
use vstd::prelude::*;
use vstd::string::StringSliceAdditionalSpecFns;

verus! {

/// One attribute of an element.
#[derive(Clone, PartialEq, Eq, Debug)]
pub struct Attribute {
    pub name: String,
    pub value: String,
}

/// The characters of an attribute's name and value.
pub struct AttributeView {
    pub name: Seq<char>,
    pub value: Seq<char>,
}

impl Attribute {
    /// The attribute of the name and the value given.
    pub fn new(name: &str, value: &str) -> (attr: Attribute)
        ensures
            attr@ == (AttributeView { name: name@, value: value@ }),
    {
        Attribute { name: name.to_owned(), value: value.to_owned() }
    }
}

impl View for Attribute {
    type V = AttributeView;

    open spec fn view(&self) -> AttributeView {
        AttributeView { name: self.name@, value: self.value@ }
    }
}

/// One step of a walk through a document in document order. An element
/// gives `Open` before its children and `Close` after them.
#[derive(Clone, PartialEq, Eq, Debug)]
pub enum DomEvent {
    /// An element starts; its attributes.
    Open(Vec<Attribute>),
    /// A text node; its content.
    Text(String),
    /// The element that was opened last and is not yet closed ends.
    Close,
    /// Anything else in the document, such as a comment.
    Other,
}

/// What an event holds, as sequences of characters.
pub enum EventView {
    Open(Seq<AttributeView>),
    Text(Seq<char>),
    Close,
    Other,
}

impl View for DomEvent {
    type V = EventView;

    open spec fn view(&self) -> EventView {
        match self {
            DomEvent::Open(attrs) => EventView::Open(attrs@.map_values(|a: Attribute| a@)),
            DomEvent::Text(text) => EventView::Text(text@),
            DomEvent::Close => EventView::Close,
            DomEvent::Other => EventView::Other,
        }
    }
}

/// The views of a sequence of events.
pub open spec fn events_view(events: Seq<DomEvent>) -> Seq<EventView> {
    events.map_values(|e: DomEvent| e@)
}

/// The longest document, in bytes of UTF-8, that is handed to the parser.
/// The parser counts the length of a text in 32 bits and panics where a
/// text that it builds would pass that; what it builds of a document of
/// this length stays far below.
pub const MAX_DOCUMENT_BYTES: usize = 0x1000_0000;

/// The events of the document that an HTML parser reads from `text`,
/// from the root element on.
pub uninterp spec fn document_events(text: Seq<char>) -> Seq<EventView>;

/// Parses `text` as an HTML document with `scraper::Html::parse_document`
/// and lists the edges of `traverse()` from its root element, each as one
/// event: the open edge of an element with the pairs of `attrs()`, the open
/// edge of a text node with its text, the close edge of an element, and
/// `Other` for every other edge. Nothing is proved of the parser; the
/// contract only names what it returns for a given text. A text above
/// `MAX_DOCUMENT_BYTES` is left out: the parser may panic on a text of
/// four gigabytes, or on one that makes it build a text of two.
#[verifier::external_body]
pub(crate) fn parse_document(text: &str) -> (events: Vec<DomEvent>)
    requires
        text.spec_bytes().len() <= MAX_DOCUMENT_BYTES,
    ensures
        events_view(events@) == document_events(text@),
{
    let dom = Html::parse_document(text);
    let events = dom.root_element().traverse().map(|edge| match edge {
        Edge::Open(node) => match node.value() {
            Node::Element(e) => DomEvent::Open(e.attrs().map(|(n, v)| Attribute::new(n, v)).collect()),
            Node::Text(t) => DomEvent::Text(t.to_string()),
            _ => DomEvent::Other,
        },
        Edge::Close(node) => match node.value() {
            Node::Element(_) => DomEvent::Close,
            _ => DomEvent::Other,
        },
    });
    events.collect()
}

} // verus!
