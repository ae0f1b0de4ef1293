use vstd::prelude::*;

use xml::reader::{EventReader, XmlEvent};

use crate::elements::{Id, UnresolvedReference};
use crate::text::{lower_of, lowercase, same_text};

verus! {

/// xml-rs's reader error, carried through unchanged; opaque here.
#[verifier::external_type_specification]
#[verifier::external_body]
pub struct ExXmlError(xml::reader::Error);

/// One attribute of a start tag, by local name.
#[derive(Debug, Clone)]
pub struct Attribute {
    pub name: String,
    pub value: String,
}

/// One event of the markup stream, as the assembler reads it.
#[derive(Debug, Clone)]
pub enum MarkupEvent {
    Start { name: String, attributes: Vec<Attribute> },
    End { name: String },
    EndOfDocument,
    Other,
}

pub struct AttributeView {
    pub name: Seq<char>,
    pub value: Seq<char>,
}

pub enum EventView {
    Start { name: Seq<char>, attributes: Seq<AttributeView> },
    End { name: Seq<char> },
    EndOfDocument,
    Other,
}

impl View for Attribute {
    type V = AttributeView;

    open spec fn view(&self) -> AttributeView {
        AttributeView { name: self.name@, value: self.value@ }
    }
}

pub open spec fn attributes_view(attrs: Seq<Attribute>) -> Seq<AttributeView> {
    attrs.map_values(|a: Attribute| a@)
}

impl View for MarkupEvent {
    type V = EventView;

    open spec fn view(&self) -> EventView {
        match self {
            MarkupEvent::Start { name, attributes } => EventView::Start {
                name: name@,
                attributes: attributes_view(attributes@),
            },
            MarkupEvent::End { name } => EventView::End { name: name@ },
            MarkupEvent::EndOfDocument => EventView::EndOfDocument,
            MarkupEvent::Other => EventView::Other,
        }
    }
}

pub open spec fn events_view(events: Seq<MarkupEvent>) -> Seq<EventView> {
    events.map_values(|e: MarkupEvent| e@)
}

/// The event stream that the markup reader makes of a byte string, or `None`
/// where the bytes are not well-formed markup.
pub uninterp spec fn markup_of(source: Seq<u8>) -> Option<Seq<EventView>>;

/// Relies on xml-rs's `EventReader` over an in-memory slice: its events up to
/// and including the end of the document, or the first error. The stream is a
/// function of the bytes alone.
#[verifier::external_body]
pub(crate) fn tokenize(source: &[u8]) -> (r: Result<Vec<MarkupEvent>, xml::reader::Error>)
    ensures
        markup_of(source@) == match r {
            Ok(events) => Some(events_view(events@)),
            Err(_) => None::<Seq<EventView>>,
        },
{
    EventReader::new(source).into_iter().map(|e| e.map(|e| match e {
        XmlEvent::StartElement { name, attributes, .. } => MarkupEvent::Start {
            name: name.local_name,
            attributes: attributes.into_iter().map(|a| Attribute { name: a.name.local_name, value: a.value }).collect(),
        },
        XmlEvent::EndElement { name } => MarkupEvent::End { name: name.local_name },
        XmlEvent::EndDocument => MarkupEvent::EndOfDocument,
        _ => MarkupEvent::Other,
    })).collect()
}

/// The value of the first attribute with exactly this name.
pub open spec fn attribute_of(attrs: Seq<AttributeView>, name: Seq<char>) -> Option<Seq<char>>
    decreases attrs.len(),
{
    if attrs.len() == 0 {
        None
    } else if attrs[0].name == name {
        Some(attrs[0].value)
    } else {
        attribute_of(attrs.drop_first(), name)
    }
}

/// Looks an attribute up by exact name; the first one wins.
pub fn find_attribute(name: &str, attrs: &Vec<Attribute>) -> (r: Option<String>)
    ensures
        match r {
            Some(v) => attribute_of(attributes_view(attrs@), name@) == Some(v@),
            None => attribute_of(attributes_view(attrs@), name@) is None,
        },
{
    let ghost all = attributes_view(attrs@);
    let mut i: usize = 0;
    assert(all.subrange(0, all.len() as int) =~= all);
    while i < attrs.len()
        invariant
            i <= attrs@.len(),
            all == attributes_view(attrs@),
            attribute_of(all, name@) == attribute_of(all.subrange(i as int, all.len() as int), name@),
        decreases attrs@.len() - i,
    {
        let ghost rest = all.subrange(i as int, all.len() as int);
        assert(rest[0] == attrs@[i as int]@);
        assert(rest.drop_first() =~= all.subrange(i + 1, all.len() as int));
        if same_text(attrs[i].name.as_str(), name) {
            return Some(attrs[i].value.clone());
        }
        i += 1;
    }
    assert(all.subrange(i as int, all.len() as int).len() == 0);
    None
}

/// The seven kinds of element that the document format knows.
#[derive(Debug, Clone, Copy, PartialEq, Eq, Structural)]
pub enum ElementKind {
    Bounds,
    Node,
    Way,
    Relation,
    Tag,
    NodeRef,
    Member,
}

/// The kind that an already lower-cased element name stands for.
pub open spec fn kind_of_lowered(s: Seq<char>) -> Option<ElementKind> {
    if s == "bounds"@ {
        Some(ElementKind::Bounds)
    } else if s == "node"@ {
        Some(ElementKind::Node)
    } else if s == "way"@ {
        Some(ElementKind::Way)
    } else if s == "relation"@ {
        Some(ElementKind::Relation)
    } else if s == "tag"@ {
        Some(ElementKind::Tag)
    } else if s == "nd"@ {
        Some(ElementKind::NodeRef)
    } else if s == "member"@ {
        Some(ElementKind::Member)
    } else {
        None
    }
}

/// The kind of an element name, compared without regard to case.
pub open spec fn element_kind(name: Seq<char>) -> Option<ElementKind> {
    kind_of_lowered(lower_of(name))
}

/// Classifies a lower-cased element name.
pub fn classify_lowered(s: &str) -> (r: Option<ElementKind>)
    ensures
        r == kind_of_lowered(s@),
{
    if same_text(s, "bounds") {
        Some(ElementKind::Bounds)
    } else if same_text(s, "node") {
        Some(ElementKind::Node)
    } else if same_text(s, "way") {
        Some(ElementKind::Way)
    } else if same_text(s, "relation") {
        Some(ElementKind::Relation)
    } else if same_text(s, "tag") {
        Some(ElementKind::Tag)
    } else if same_text(s, "nd") {
        Some(ElementKind::NodeRef)
    } else if same_text(s, "member") {
        Some(ElementKind::Member)
    } else {
        None
    }
}

/// Classifies an element name without regard to case.
pub fn classify(name: &str) -> (r: Option<ElementKind>)
    ensures
        r == element_kind(name@),
{
    let lowered = lowercase(name);
    classify_lowered(lowered.as_str())
}

/// The reference that a lower-cased member type names for an id.
pub open spec fn reference_of_lowered(s: Seq<char>, id: Id) -> Option<UnresolvedReference> {
    if s == "node"@ {
        Some(UnresolvedReference::Node(id))
    } else if s == "way"@ {
        Some(UnresolvedReference::Way(id))
    } else if s == "relation"@ {
        Some(UnresolvedReference::Relation(id))
    } else {
        None
    }
}

/// Builds the reference that a lower-cased member type names.
pub fn reference_for_lowered(s: &str, id: Id) -> (r: Option<UnresolvedReference>)
    ensures
        r == reference_of_lowered(s@, id),
{
    if same_text(s, "node") {
        Some(UnresolvedReference::Node(id))
    } else if same_text(s, "way") {
        Some(UnresolvedReference::Way(id))
    } else if same_text(s, "relation") {
        Some(UnresolvedReference::Relation(id))
    } else {
        None
    }
}

} // verus!
