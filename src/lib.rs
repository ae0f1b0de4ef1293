use vstd::prelude::*;

use fnv::FnvHashMap;

use assembler::{document_of, parse_events};
use error::ParseError;
use markup::{markup_of, tokenize};

pub mod error;
mod elements;
mod maps;
pub mod text;
pub mod markup;
pub mod assembler;
pub mod polygon;

pub use polygon::is_polygon;
pub use elements::{
    Bounds, Coordinate, Id, Member, MemberView, Node, NodeView, Reference, Relation, RelationView,
    Role, Tag, TagView, UnresolvedReference, Way, WayView,
};

verus! {

/// A parsed map-data document: optional bounds and three maps keyed by id.
#[derive(Debug)]
pub struct OSM {
    pub bounds: Option<Bounds>,
    pub nodes: FnvHashMap<Id, Node>,
    pub ways: FnvHashMap<Id, Way>,
    pub relations: FnvHashMap<Id, Relation>,
}

/// The document as values: each map sends an id to the entity's view.
pub struct DocView {
    pub bounds: Option<Bounds>,
    pub nodes: Map<Id, NodeView>,
    pub ways: Map<Id, WayView>,
    pub relations: Map<Id, RelationView>,
}

impl View for OSM {
    type V = DocView;

    open spec fn view(&self) -> DocView {
        DocView {
            bounds: self.bounds,
            nodes: self.nodes@.map_values(|n: Node| n@),
            ways: self.ways@.map_values(|w: Way| w@),
            relations: self.relations@.map_values(|r: Relation| r@),
        }
    }
}

impl OSM {
    pub(crate) fn empty() -> (r: OSM)
        ensures
            r.bounds is None,
            r.nodes@ == Map::<Id, Node>::empty(),
            r.ways@ == Map::<Id, Way>::empty(),
            r.relations@ == Map::<Id, Relation>::empty(),
    {
        OSM {
            bounds: None,
            nodes: FnvHashMap::default(),
            ways: FnvHashMap::default(),
            relations: FnvHashMap::default(),
        }
    }

    /// Parses a document from its bytes. Fails only where the markup itself is
    /// not well formed; malformed entities are dropped and the parse goes on.
    pub fn parse(source: &[u8]) -> (r: Result<OSM, ParseError>)
        ensures
            match r {
                Ok(doc) => markup_of(source@) is Some && doc@ == document_of(
                    markup_of(source@)->0,
                ),
                Err(_) => markup_of(source@) is None,
            },
    {
        match tokenize(source) {
            Ok(events) => Ok(parse_events(&events)),
            Err(e) => Err(ParseError::XmlParseError(e)),
        }
    }

    /// Looks the reference up in the map of its own kind; an absent id gives
    /// `Unresolved`.
    pub fn resolve_reference<'a>(&'a self, reference: &UnresolvedReference) -> (r: Reference<'a>)
        ensures
            match *reference {
                UnresolvedReference::Node(id) => match r {
                    Reference::Node(n) => self.nodes@.contains_key(id) && *n == self.nodes@[id],
                    Reference::Unresolved => !self.nodes@.contains_key(id),
                    _ => false,
                },
                UnresolvedReference::Way(id) => match r {
                    Reference::Way(w) => self.ways@.contains_key(id) && *w == self.ways@[id],
                    Reference::Unresolved => !self.ways@.contains_key(id),
                    _ => false,
                },
                UnresolvedReference::Relation(id) => match r {
                    Reference::Relation(x) => self.relations@.contains_key(id) && *x
                        == self.relations@[id],
                    Reference::Unresolved => !self.relations@.contains_key(id),
                    _ => false,
                },
            },
    {
        match *reference {
            UnresolvedReference::Node(id) => match maps::map_get(&self.nodes, id) {
                Some(n) => Reference::Node(n),
                None => Reference::Unresolved,
            },
            UnresolvedReference::Way(id) => match maps::map_get(&self.ways, id) {
                Some(w) => Reference::Way(w),
                None => Reference::Unresolved,
            },
            UnresolvedReference::Relation(id) => match maps::map_get(&self.relations, id) {
                Some(x) => Reference::Relation(x),
                None => Reference::Unresolved,
            },
        }
    }
}

} // verus!
