use vstd::prelude::*;

verus! {

/// Identifier of a node, way or relation; the three kinds are separate namespaces.
pub type Id = u64;

/// Free-text role of a relation member.
pub type Role = String;

/// An exact decimal coordinate: its value is `mantissa / 10^scale`.
#[derive(Debug, Clone, Copy, PartialEq, Eq, Structural)]
pub struct Coordinate {
    pub mantissa: i128,
    pub scale: u32,
}

/// The four corners of the extract; present only when all four parsed.
#[derive(Debug, Clone, Copy, PartialEq, Eq, Structural)]
pub struct Bounds {
    pub minlat: Coordinate,
    pub minlon: Coordinate,
    pub maxlat: Coordinate,
    pub maxlon: Coordinate,
}

#[derive(Debug, Clone, PartialEq)]
pub struct Tag {
    pub key: String,
    pub val: String,
}

/// A typed foreign key, recorded as parsed and never checked eagerly.
#[derive(Debug, Clone, Copy, PartialEq, Eq, Structural)]
pub enum UnresolvedReference {
    Node(Id),
    Way(Id),
    Relation(Id),
}

#[derive(Debug, Clone, PartialEq)]
pub enum Member {
    Node(UnresolvedReference, Role),
    Way(UnresolvedReference, Role),
    Relation(UnresolvedReference, Role),
}

#[derive(Debug, Clone, PartialEq)]
pub struct Node {
    pub id: Id,
    pub lat: Coordinate,
    pub lon: Coordinate,
    pub tags: Vec<Tag>,
}

#[derive(Debug, Clone, PartialEq)]
pub struct Way {
    pub id: Id,
    pub nodes: Vec<UnresolvedReference>,
    pub tags: Vec<Tag>,
}

#[derive(Debug, Clone, PartialEq)]
pub struct Relation {
    pub id: Id,
    pub members: Vec<Member>,
    pub tags: Vec<Tag>,
}

/// A reference resolved against a document, borrowing the entity it names.
#[derive(Debug)]
pub enum Reference<'a> {
    Node(&'a Node),
    Way(&'a Way),
    Relation(&'a Relation),
    Unresolved,
}

/// A tag as a pair of character sequences.
pub struct TagView {
    pub key: Seq<char>,
    pub val: Seq<char>,
}

pub enum MemberView {
    Node(UnresolvedReference, Seq<char>),
    Way(UnresolvedReference, Seq<char>),
    Relation(UnresolvedReference, Seq<char>),
}

pub struct NodeView {
    pub id: Id,
    pub lat: Coordinate,
    pub lon: Coordinate,
    pub tags: Seq<TagView>,
}

pub struct WayView {
    pub id: Id,
    pub nodes: Seq<UnresolvedReference>,
    pub tags: Seq<TagView>,
}

pub struct RelationView {
    pub id: Id,
    pub members: Seq<MemberView>,
    pub tags: Seq<TagView>,
}

impl View for Tag {
    type V = TagView;

    open spec fn view(&self) -> TagView {
        TagView { key: self.key@, val: self.val@ }
    }
}

impl View for Member {
    type V = MemberView;

    open spec fn view(&self) -> MemberView {
        match self {
            Member::Node(r, role) => MemberView::Node(*r, role@),
            Member::Way(r, role) => MemberView::Way(*r, role@),
            Member::Relation(r, role) => MemberView::Relation(*r, role@),
        }
    }
}

pub open spec fn tags_view(tags: Seq<Tag>) -> Seq<TagView> {
    tags.map_values(|t: Tag| t@)
}

pub open spec fn members_view(members: Seq<Member>) -> Seq<MemberView> {
    members.map_values(|m: Member| m@)
}

impl View for Node {
    type V = NodeView;

    open spec fn view(&self) -> NodeView {
        NodeView { id: self.id, lat: self.lat, lon: self.lon, tags: tags_view(self.tags@) }
    }
}

impl View for Way {
    type V = WayView;

    open spec fn view(&self) -> WayView {
        WayView { id: self.id, nodes: self.nodes@, tags: tags_view(self.tags@) }
    }
}

impl View for Relation {
    type V = RelationView;

    open spec fn view(&self) -> RelationView {
        RelationView { id: self.id, members: members_view(self.members@), tags: tags_view(self.tags@) }
    }
}

} // verus!
