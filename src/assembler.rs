use vstd::prelude::*;

use crate::elements::{
    Bounds, Coordinate, Id, Member, MemberView, Node, NodeView, Relation, RelationView, Tag,
    TagView, UnresolvedReference, Way, WayView, members_view, tags_view,
};
use crate::maps::map_insert;
use crate::markup::{
    Attribute, AttributeView, ElementKind, EventView, MarkupEvent, attribute_of, attributes_view,
    classify, element_kind, events_view, find_attribute, reference_for_lowered,
    reference_of_lowered,
};
use crate::text::{coordinate_of, id_of, lower_of, lowercase, parse_coordinate, parse_id};
use crate::{DocView, OSM};

verus! {

// ---------------------------------------------------------------------------
// Reading the attributes of one start tag
// ---------------------------------------------------------------------------

/// A tag needs both `k` and `v`.
pub open spec fn tag_of(attrs: Seq<AttributeView>) -> Option<TagView> {
    match (attribute_of(attrs, "k"@), attribute_of(attrs, "v"@)) {
        (Some(k), Some(v)) => Some(TagView { key: k, val: v }),
        _ => None,
    }
}

pub open spec fn coordinate_attr(attrs: Seq<AttributeView>, name: Seq<char>) -> Option<Coordinate> {
    match attribute_of(attrs, name) {
        Some(t) => coordinate_of(t),
        None => None,
    }
}

pub open spec fn id_attr(attrs: Seq<AttributeView>, name: Seq<char>) -> Option<Id> {
    match attribute_of(attrs, name) {
        Some(t) => id_of(t),
        None => None,
    }
}

/// Bounds need all four coordinates.
pub open spec fn bounds_of(attrs: Seq<AttributeView>) -> Option<Bounds> {
    match (
        coordinate_attr(attrs, "minlat"@),
        coordinate_attr(attrs, "minlon"@),
        coordinate_attr(attrs, "maxlat"@),
        coordinate_attr(attrs, "maxlon"@),
    ) {
        (Some(minlat), Some(minlon), Some(maxlat), Some(maxlon)) => Some(
            Bounds { minlat, minlon, maxlat, maxlon },
        ),
        _ => None,
    }
}

/// The member variant that matches the kind of its reference.
pub open spec fn member_with(r: UnresolvedReference, role: Seq<char>) -> MemberView {
    match r {
        UnresolvedReference::Node(_) => MemberView::Node(r, role),
        UnresolvedReference::Way(_) => MemberView::Way(r, role),
        UnresolvedReference::Relation(_) => MemberView::Relation(r, role),
    }
}

/// A member needs a known `type` and a numeric `ref`; a missing `role` is empty.
pub open spec fn member_of(attrs: Seq<AttributeView>) -> Option<MemberView> {
    match (attribute_of(attrs, "type"@), id_attr(attrs, "ref"@)) {
        (Some(t), Some(id)) => match reference_of_lowered(lower_of(t), id) {
            Some(r) => Some(
                member_with(
                    r,
                    match attribute_of(attrs, "role"@) {
                        Some(role) => role,
                        None => Seq::empty(),
                    },
                ),
            ),
            None => None,
        },
        _ => None,
    }
}

pub fn parse_tag(attrs: &Vec<Attribute>) -> (r: Option<Tag>)
    ensures
        match r {
            Some(t) => tag_of(attributes_view(attrs@)) == Some(t@),
            None => tag_of(attributes_view(attrs@)) is None,
        },
{
    let key = find_attribute("k", attrs);
    let val = find_attribute("v", attrs);
    match (key, val) {
        (Some(key), Some(val)) => Some(Tag { key, val }),
        _ => None,
    }
}

pub fn coordinate_attribute(name: &str, attrs: &Vec<Attribute>) -> (r: Option<Coordinate>)
    ensures
        r == coordinate_attr(attributes_view(attrs@), name@),
{
    match find_attribute(name, attrs) {
        Some(t) => parse_coordinate(t.as_str()),
        None => None,
    }
}

pub fn id_attribute(name: &str, attrs: &Vec<Attribute>) -> (r: Option<Id>)
    ensures
        r == id_attr(attributes_view(attrs@), name@),
{
    match find_attribute(name, attrs) {
        Some(t) => parse_id(t.as_str()),
        None => None,
    }
}

pub fn parse_bounds(attrs: &Vec<Attribute>) -> (r: Option<Bounds>)
    ensures
        r == bounds_of(attributes_view(attrs@)),
{
    let minlat = coordinate_attribute("minlat", attrs);
    let minlon = coordinate_attribute("minlon", attrs);
    let maxlat = coordinate_attribute("maxlat", attrs);
    let maxlon = coordinate_attribute("maxlon", attrs);
    match (minlat, minlon, maxlat, maxlon) {
        (Some(minlat), Some(minlon), Some(maxlat), Some(maxlon)) => Some(
            Bounds { minlat, minlon, maxlat, maxlon },
        ),
        _ => None,
    }
}

pub fn parse_member(attrs: &Vec<Attribute>) -> (r: Option<Member>)
    ensures
        match r {
            Some(m) => member_of(attributes_view(attrs@)) == Some(m@),
            None => member_of(attributes_view(attrs@)) is None,
        },
{
    let kind = find_attribute("type", attrs);
    let id = id_attribute("ref", attrs);
    match (kind, id) {
        (Some(kind), Some(id)) => {
            let lowered = lowercase(kind.as_str());
            match reference_for_lowered(lowered.as_str(), id) {
                Some(r) => {
                    let role = match find_attribute("role", attrs) {
                        Some(role) => role,
                        None => String::new(),
                    };
                    Some(
                        match r {
                            UnresolvedReference::Node(_) => Member::Node(r, role),
                            UnresolvedReference::Way(_) => Member::Way(r, role),
                            UnresolvedReference::Relation(_) => Member::Relation(r, role),
                        },
                    )
                },
                None => None,
            }
        },
        _ => None,
    }
}

// ---------------------------------------------------------------------------
// The state machine
// ---------------------------------------------------------------------------

/// Where the assembler stands: at the top level, inside one entity with what
/// it has gathered so far, or past the end of the document.
pub enum Phase {
    Root,
    InNode { id: Id, lat: Coordinate, lon: Coordinate, tags: Vec<Tag> },
    InWay { id: Id, nodes: Vec<UnresolvedReference>, tags: Vec<Tag> },
    InRelation { id: Id, members: Vec<Member>, tags: Vec<Tag> },
    Done,
}

pub enum PhaseView {
    Root,
    InNode(Id, Coordinate, Coordinate, Seq<TagView>),
    InWay(Id, Seq<UnresolvedReference>, Seq<TagView>),
    InRelation(Id, Seq<MemberView>, Seq<TagView>),
    Done,
}

impl View for Phase {
    type V = PhaseView;

    open spec fn view(&self) -> PhaseView {
        match self {
            Phase::Root => PhaseView::Root,
            Phase::InNode { id, lat, lon, tags } => PhaseView::InNode(
                *id,
                *lat,
                *lon,
                tags_view(tags@),
            ),
            Phase::InWay { id, nodes, tags } => PhaseView::InWay(*id, nodes@, tags_view(tags@)),
            Phase::InRelation { id, members, tags } => PhaseView::InRelation(
                *id,
                members_view(members@),
                tags_view(tags@),
            ),
            Phase::Done => PhaseView::Done,
        }
    }
}

/// Appends the tag if it is well formed; a malformed tag is dropped alone.
pub open spec fn with_tag(tags: Seq<TagView>, attrs: Seq<AttributeView>) -> Seq<TagView> {
    match tag_of(attrs) {
        Some(t) => tags.push(t),
        None => tags,
    }
}

/// One event at the top level.
pub open spec fn root_step(d: DocView, e: EventView, k: Option<ElementKind>) -> (PhaseView, DocView) {
    match e {
        EventView::EndOfDocument => (PhaseView::Done, d),
        EventView::Start { name, attributes } => match k {
            Some(ElementKind::Bounds) => (
                PhaseView::Root,
                DocView { bounds: bounds_of(attributes), ..d },
            ),
            Some(ElementKind::Node) => match (
                id_attr(attributes, "id"@),
                coordinate_attr(attributes, "lat"@),
                coordinate_attr(attributes, "lon"@),
            ) {
                (Some(id), Some(lat), Some(lon)) => (
                    PhaseView::InNode(id, lat, lon, Seq::empty()),
                    d,
                ),
                _ => (PhaseView::Root, d),
            },
            Some(ElementKind::Way) => match id_attr(attributes, "id"@) {
                Some(id) => (PhaseView::InWay(id, Seq::empty(), Seq::empty()), d),
                None => (PhaseView::Root, d),
            },
            Some(ElementKind::Relation) => match id_attr(attributes, "id"@) {
                Some(id) => (PhaseView::InRelation(id, Seq::empty(), Seq::empty()), d),
                None => (PhaseView::Root, d),
            },
            _ => (PhaseView::Root, d),
        },
        _ => (PhaseView::Root, d),
    }
}

/// One event inside a node.
pub open spec fn node_step(
    id: Id,
    lat: Coordinate,
    lon: Coordinate,
    tags: Seq<TagView>,
    d: DocView,
    e: EventView,
    k: Option<ElementKind>,
) -> (PhaseView, DocView) {
    let stay = PhaseView::InNode(id, lat, lon, tags);
    match e {
        EventView::Start { name, attributes } => match k {
            Some(ElementKind::Tag) => (
                PhaseView::InNode(id, lat, lon, with_tag(tags, attributes)),
                d,
            ),
            Some(_) => (PhaseView::Root, d),
            None => (stay, d),
        },
        EventView::End { name } => match k {
            Some(ElementKind::Node) => (
                PhaseView::Root,
                DocView { nodes: d.nodes.insert(id, NodeView { id, lat, lon, tags }), ..d },
            ),
            Some(_) => (stay, d),
            None => (PhaseView::Root, d),
        },
        _ => (stay, d),
    }
}

/// One event inside a way.
pub open spec fn way_step(
    id: Id,
    nodes: Seq<UnresolvedReference>,
    tags: Seq<TagView>,
    d: DocView,
    e: EventView,
    k: Option<ElementKind>,
) -> (PhaseView, DocView) {
    let stay = PhaseView::InWay(id, nodes, tags);
    match e {
        EventView::Start { name, attributes } => match k {
            Some(ElementKind::Tag) => (PhaseView::InWay(id, nodes, with_tag(tags, attributes)), d),
            Some(ElementKind::NodeRef) => match id_attr(attributes, "ref"@) {
                Some(r) => (
                    PhaseView::InWay(id, nodes.push(UnresolvedReference::Node(r)), tags),
                    d,
                ),
                None => (PhaseView::Root, d),
            },
            Some(_) => (PhaseView::Root, d),
            None => (stay, d),
        },
        EventView::End { name } => match k {
            Some(ElementKind::Way) => (
                PhaseView::Root,
                DocView { ways: d.ways.insert(id, WayView { id, nodes, tags }), ..d },
            ),
            Some(_) => (stay, d),
            None => (PhaseView::Root, d),
        },
        _ => (stay, d),
    }
}

/// One event inside a relation.
pub open spec fn relation_step(
    id: Id,
    members: Seq<MemberView>,
    tags: Seq<TagView>,
    d: DocView,
    e: EventView,
    k: Option<ElementKind>,
) -> (PhaseView, DocView) {
    let stay = PhaseView::InRelation(id, members, tags);
    match e {
        EventView::Start { name, attributes } => match k {
            Some(ElementKind::Tag) => (
                PhaseView::InRelation(id, members, with_tag(tags, attributes)),
                d,
            ),
            Some(ElementKind::Member) => match member_of(attributes) {
                Some(m) => (PhaseView::InRelation(id, members.push(m), tags), d),
                None => (PhaseView::Root, d),
            },
            Some(_) => (PhaseView::Root, d),
            None => (stay, d),
        },
        EventView::End { name } => match k {
            Some(ElementKind::Relation) => (
                PhaseView::Root,
                DocView {
                    relations: d.relations.insert(id, RelationView { id, members, tags }),
                    ..d
                },
            ),
            Some(_) => (stay, d),
            None => (PhaseView::Root, d),
        },
        _ => (stay, d),
    }
}

/// The kind of the element that an event opens or closes, if any.
pub open spec fn event_kind(e: EventView) -> Option<ElementKind> {
    match e {
        EventView::Start { name, .. } => element_kind(name),
        EventView::End { name } => element_kind(name),
        _ => None,
    }
}

/// One event in any phase, given the kind of the element it names; past the
/// end of the document nothing changes.
pub open spec fn classified_step(p: PhaseView, d: DocView, e: EventView, k: Option<ElementKind>) -> (
    PhaseView,
    DocView,
) {
    match p {
        PhaseView::Root => root_step(d, e, k),
        PhaseView::InNode(id, lat, lon, tags) => node_step(id, lat, lon, tags, d, e, k),
        PhaseView::InWay(id, nodes, tags) => way_step(id, nodes, tags, d, e, k),
        PhaseView::InRelation(id, members, tags) => relation_step(id, members, tags, d, e, k),
        PhaseView::Done => (PhaseView::Done, d),
    }
}

/// One event in any phase, its element name classified without regard to case.
pub open spec fn step(p: PhaseView, d: DocView, e: EventView) -> (PhaseView, DocView) {
    classified_step(p, d, e, event_kind(e))
}

pub open spec fn empty_doc() -> DocView {
    DocView {
        bounds: None,
        nodes: Map::empty(),
        ways: Map::empty(),
        relations: Map::empty(),
    }
}

/// The phase and the document after a sequence of events, from the top level
/// of an empty document.
pub open spec fn run(events: Seq<EventView>) -> (PhaseView, DocView)
    decreases events.len(),
{
    if events.len() == 0 {
        (PhaseView::Root, empty_doc())
    } else {
        let (p, d) = run(events.drop_last());
        step(p, d, events.last())
    }
}

/// The document that a sequence of events builds.
pub open spec fn document_of(events: Seq<EventView>) -> DocView {
    run(events).1
}

fn step_root(doc: &mut OSM, event: &MarkupEvent, kind: Option<ElementKind>) -> (r: Phase)
    ensures
        (r@, final(doc)@) == root_step(old(doc)@, event@, kind),
{
    match event {
        MarkupEvent::EndOfDocument => Phase::Done,
        MarkupEvent::Start { name, attributes } => match kind {
            Some(ElementKind::Bounds) => {
                doc.bounds = parse_bounds(attributes);
                Phase::Root
            },
            Some(ElementKind::Node) => {
                let id = id_attribute("id", attributes);
                let lat = coordinate_attribute("lat", attributes);
                let lon = coordinate_attribute("lon", attributes);
                match (id, lat, lon) {
                    (Some(id), Some(lat), Some(lon)) => {
                        let tags: Vec<Tag> = Vec::new();
                        proof {
                            assert(tags_view(tags@) =~= Seq::<TagView>::empty());
                        }
                        Phase::InNode { id, lat, lon, tags }
                    },
                    _ => Phase::Root,
                }
            },
            Some(ElementKind::Way) => match id_attribute("id", attributes) {
                Some(id) => {
                    let tags: Vec<Tag> = Vec::new();
                    proof {
                        assert(tags_view(tags@) =~= Seq::<TagView>::empty());
                    }
                    Phase::InWay { id, nodes: Vec::new(), tags }
                },
                None => Phase::Root,
            },
            Some(ElementKind::Relation) => match id_attribute("id", attributes) {
                Some(id) => {
                    let tags: Vec<Tag> = Vec::new();
                    let members: Vec<Member> = Vec::new();
                    proof {
                        assert(tags_view(tags@) =~= Seq::<TagView>::empty());
                        assert(members_view(members@) =~= Seq::<MemberView>::empty());
                    }
                    Phase::InRelation { id, members, tags }
                },
                None => Phase::Root,
            },
            _ => Phase::Root,
        },
        _ => Phase::Root,
    }
}

/// Appends a well-formed tag, and drops a malformed one.
fn push_tag(tags: &mut Vec<Tag>, attrs: &Vec<Attribute>)
    ensures
        tags_view(final(tags)@) == with_tag(tags_view(old(tags)@), attributes_view(attrs@)),
{
    match parse_tag(attrs) {
        Some(t) => {
            tags.push(t);
            proof {
                assert(tags_view(tags@) =~= tags_view(old(tags)@).push(t@));
            }
        },
        None => {},
    }
}

fn step_node(
    id: Id,
    lat: Coordinate,
    lon: Coordinate,
    tags: Vec<Tag>,
    doc: &mut OSM,
    event: &MarkupEvent,
    kind: Option<ElementKind>,
) -> (r: Phase)
    ensures
        (r@, final(doc)@) == node_step(id, lat, lon, tags_view(tags@), old(doc)@, event@, kind),
{
    let mut tags = tags;
    match event {
        MarkupEvent::Start { name, attributes } => match kind {
            Some(ElementKind::Tag) => {
                push_tag(&mut tags, attributes);
                Phase::InNode { id, lat, lon, tags }
            },
            Some(_) => Phase::Root,
            None => Phase::InNode { id, lat, lon, tags },
        },
        MarkupEvent::End { name } => match kind {
            Some(ElementKind::Node) => {
                let node = Node { id, lat, lon, tags };
                map_insert(&mut doc.nodes, id, node);
                proof {
                    assert(doc@.nodes =~= old(doc)@.nodes.insert(id, node@));
                }
                Phase::Root
            },
            Some(_) => Phase::InNode { id, lat, lon, tags },
            None => Phase::Root,
        },
        _ => Phase::InNode { id, lat, lon, tags },
    }
}

fn step_way(
    id: Id,
    nodes: Vec<UnresolvedReference>,
    tags: Vec<Tag>,
    doc: &mut OSM,
    event: &MarkupEvent,
    kind: Option<ElementKind>,
) -> (r: Phase)
    ensures
        (r@, final(doc)@) == way_step(id, nodes@, tags_view(tags@), old(doc)@, event@, kind),
{
    let mut tags = tags;
    let mut nodes = nodes;
    match event {
        MarkupEvent::Start { name, attributes } => match kind {
            Some(ElementKind::Tag) => {
                push_tag(&mut tags, attributes);
                Phase::InWay { id, nodes, tags }
            },
            Some(ElementKind::NodeRef) => match id_attribute("ref", attributes) {
                Some(r) => {
                    nodes.push(UnresolvedReference::Node(r));
                    Phase::InWay { id, nodes, tags }
                },
                None => Phase::Root,
            },
            Some(_) => Phase::Root,
            None => Phase::InWay { id, nodes, tags },
        },
        MarkupEvent::End { name } => match kind {
            Some(ElementKind::Way) => {
                let way = Way { id, nodes, tags };
                map_insert(&mut doc.ways, id, way);
                proof {
                    assert(doc@.ways =~= old(doc)@.ways.insert(id, way@));
                }
                Phase::Root
            },
            Some(_) => Phase::InWay { id, nodes, tags },
            None => Phase::Root,
        },
        _ => Phase::InWay { id, nodes, tags },
    }
}

fn step_relation(
    id: Id,
    members: Vec<Member>,
    tags: Vec<Tag>,
    doc: &mut OSM,
    event: &MarkupEvent,
    kind: Option<ElementKind>,
) -> (r: Phase)
    ensures
        (r@, final(doc)@) == relation_step(
            id,
            members_view(members@),
            tags_view(tags@),
            old(doc)@,
            event@,
            kind,
        ),
{
    let mut tags = tags;
    let mut members = members;
    match event {
        MarkupEvent::Start { name, attributes } => match kind {
            Some(ElementKind::Tag) => {
                push_tag(&mut tags, attributes);
                Phase::InRelation { id, members, tags }
            },
            Some(ElementKind::Member) => match parse_member(attributes) {
                Some(m) => {
                    let ghost before = members@;
                    members.push(m);
                    proof {
                        assert(members_view(members@) =~= members_view(before).push(m@));
                    }
                    Phase::InRelation { id, members, tags }
                },
                None => Phase::Root,
            },
            Some(_) => Phase::Root,
            None => Phase::InRelation { id, members, tags },
        },
        MarkupEvent::End { name } => match kind {
            Some(ElementKind::Relation) => {
                let relation = Relation { id, members, tags };
                map_insert(&mut doc.relations, id, relation);
                proof {
                    assert(doc@.relations =~= old(doc)@.relations.insert(id, relation@));
                }
                Phase::Root
            },
            Some(_) => Phase::InRelation { id, members, tags },
            None => Phase::Root,
        },
        _ => Phase::InRelation { id, members, tags },
    }
}

/// Feeds one event to the assembler, given the kind of the element it names.
pub fn advance_classified(
    phase: Phase,
    doc: &mut OSM,
    event: &MarkupEvent,
    kind: Option<ElementKind>,
) -> (r: Phase)
    ensures
        (r@, final(doc)@) == classified_step(phase@, old(doc)@, event@, kind),
{
    match phase {
        Phase::Root => step_root(doc, event, kind),
        Phase::InNode { id, lat, lon, tags } => step_node(id, lat, lon, tags, doc, event, kind),
        Phase::InWay { id, nodes, tags } => step_way(id, nodes, tags, doc, event, kind),
        Phase::InRelation { id, members, tags } => step_relation(
            id,
            members,
            tags,
            doc,
            event,
            kind,
        ),
        Phase::Done => Phase::Done,
    }
}

/// Feeds one event to the assembler.
pub fn advance(phase: Phase, doc: &mut OSM, event: &MarkupEvent) -> (r: Phase)
    ensures
        (r@, final(doc)@) == step(phase@, old(doc)@, event@),
{
    let kind = match event {
        MarkupEvent::Start { name, .. } => classify(name.as_str()),
        MarkupEvent::End { name } => classify(name.as_str()),
        _ => None,
    };
    advance_classified(phase, doc, event, kind)
}

/// Builds a document from a stream of events.
pub fn parse_events(events: &Vec<MarkupEvent>) -> (r: OSM)
    ensures
        r@ == document_of(events_view(events@)),
{
    let ghost evs = events_view(events@);
    let mut doc = OSM::empty();
    let mut phase = Phase::Root;
    proof {
        assert(doc@.nodes =~= Map::<Id, NodeView>::empty());
        assert(doc@.ways =~= Map::<Id, WayView>::empty());
        assert(doc@.relations =~= Map::<Id, RelationView>::empty());
        assert(evs.take(0) =~= Seq::<EventView>::empty());
    }
    let mut i: usize = 0;
    while i < events.len()
        invariant
            i <= events@.len(),
            evs == events_view(events@),
            (phase@, doc@) == run(evs.take(i as int)),
        decreases events@.len() - i,
    {
        proof {
            assert(evs.take(i + 1).drop_last() =~= evs.take(i as int));
        }
        phase = advance(phase, &mut doc, &events[i]);
        i += 1;
    }
    proof {
        assert(evs.take(i as int) =~= evs);
    }
    doc
}

} // verus!

verus! {

// ---------------------------------------------------------------------------
// Laws of the document builder
// ---------------------------------------------------------------------------

/// Every key of each map is the id of the entity it maps to.
pub open spec fn keys_are_ids(d: DocView) -> bool {
    &&& forall|k: Id| #[trigger] d.nodes.contains_key(k) ==> d.nodes[k].id == k
    &&& forall|k: Id| #[trigger] d.ways.contains_key(k) ==> d.ways[k].id == k
    &&& forall|k: Id| #[trigger] d.relations.contains_key(k) ==> d.relations[k].id == k
}

/// In every document built from events, each map key equals the id of the
/// entity stored under it.
pub proof fn lemma_keys_are_ids(events: Seq<EventView>)
    ensures
        keys_are_ids(document_of(events)),
    decreases events.len(),
{
    if events.len() > 0 {
        lemma_keys_are_ids(events.drop_last());
    }
}

/// The node that the event at `i` completes, if that event closes a node.
pub open spec fn completed_node(events: Seq<EventView>, i: int) -> Option<NodeView> {
    match run(events.take(i)).0 {
        PhaseView::InNode(id, lat, lon, tags) => match events[i] {
            EventView::End { name } => if element_kind(name) == Some(ElementKind::Node) {
                Some(NodeView { id, lat, lon, tags })
            } else {
                None
            },
            _ => None,
        },
        _ => None,
    }
}

/// The way that the event at `i` completes, if that event closes a way.
pub open spec fn completed_way(events: Seq<EventView>, i: int) -> Option<WayView> {
    match run(events.take(i)).0 {
        PhaseView::InWay(id, nodes, tags) => match events[i] {
            EventView::End { name } => if element_kind(name) == Some(ElementKind::Way) {
                Some(WayView { id, nodes, tags })
            } else {
                None
            },
            _ => None,
        },
        _ => None,
    }
}

/// The relation that the event at `i` completes, if that event closes one.
pub open spec fn completed_relation(events: Seq<EventView>, i: int) -> Option<RelationView> {
    match run(events.take(i)).0 {
        PhaseView::InRelation(id, members, tags) => match events[i] {
            EventView::End { name } => if element_kind(name) == Some(ElementKind::Relation) {
                Some(RelationView { id, members, tags })
            } else {
                None
            },
            _ => None,
        },
        _ => None,
    }
}

proof fn lemma_take_prefix(events: Seq<EventView>, j: int)
    requires
        0 <= j < events.len() - 1,
    ensures
        events.drop_last().take(j) == events.take(j),
        events.drop_last()[j] == events[j],
{
    assert(events.drop_last().take(j) =~= events.take(j));
}

/// A node completed at `i` is the one the document keeps under its id when no
/// later event completes another node with that id: the last one wins.
pub proof fn lemma_last_node_wins(events: Seq<EventView>, i: int)
    requires
        0 <= i < events.len(),
        completed_node(events, i) is Some,
        forall|j: int|
            i < j < events.len() ==> match #[trigger] completed_node(events, j) {
                Some(m) => m.id != completed_node(events, i)->0.id,
                None => true,
            },
    ensures
        document_of(events).nodes.contains_key(completed_node(events, i)->0.id),
        document_of(events).nodes[completed_node(events, i)->0.id] == completed_node(events, i)->0,
    decreases events.len(),
{
    let last = events.len() - 1;
    assert(events.take(last) =~= events.drop_last());
    if i < last {
        let prev = events.drop_last();
        lemma_take_prefix(events, i);
        assert forall|j: int| i < j < prev.len() implies match #[trigger] completed_node(prev, j) {
            Some(m) => m.id != completed_node(prev, i)->0.id,
            None => true,
        } by {
            lemma_take_prefix(events, j);
            assert(completed_node(prev, j) == completed_node(events, j));
        }
        lemma_last_node_wins(prev, i);
        // the last event completes no other node with this id
        assert(match completed_node(events, last) {
            Some(m) => m.id != completed_node(events, i)->0.id,
            None => true,
        });
    }
}

/// A way completed at `i` is the one the document keeps under its id when no
/// later event completes another way with that id: the last one wins.
pub proof fn lemma_last_way_wins(events: Seq<EventView>, i: int)
    requires
        0 <= i < events.len(),
        completed_way(events, i) is Some,
        forall|j: int|
            i < j < events.len() ==> match #[trigger] completed_way(events, j) {
                Some(m) => m.id != completed_way(events, i)->0.id,
                None => true,
            },
    ensures
        document_of(events).ways.contains_key(completed_way(events, i)->0.id),
        document_of(events).ways[completed_way(events, i)->0.id] == completed_way(events, i)->0,
    decreases events.len(),
{
    let last = events.len() - 1;
    assert(events.take(last) =~= events.drop_last());
    if i < last {
        let prev = events.drop_last();
        lemma_take_prefix(events, i);
        assert forall|j: int| i < j < prev.len() implies match #[trigger] completed_way(prev, j) {
            Some(m) => m.id != completed_way(prev, i)->0.id,
            None => true,
        } by {
            lemma_take_prefix(events, j);
            assert(completed_way(prev, j) == completed_way(events, j));
        }
        lemma_last_way_wins(prev, i);
        // the last event completes no other way with this id
        assert(match completed_way(events, last) {
            Some(m) => m.id != completed_way(events, i)->0.id,
            None => true,
        });
    }
}

/// A relation completed at `i` is the one the document keeps under its id when
/// no later event completes another relation with that id: the last one wins.
pub proof fn lemma_last_relation_wins(events: Seq<EventView>, i: int)
    requires
        0 <= i < events.len(),
        completed_relation(events, i) is Some,
        forall|j: int|
            i < j < events.len() ==> match #[trigger] completed_relation(events, j) {
                Some(m) => m.id != completed_relation(events, i)->0.id,
                None => true,
            },
    ensures
        document_of(events).relations.contains_key(completed_relation(events, i)->0.id),
        document_of(events).relations[completed_relation(events, i)->0.id] == completed_relation(
            events,
            i,
        )->0,
    decreases events.len(),
{
    let last = events.len() - 1;
    assert(events.take(last) =~= events.drop_last());
    if i < last {
        let prev = events.drop_last();
        lemma_take_prefix(events, i);
        assert forall|j: int| i < j < prev.len() implies match #[trigger] completed_relation(
            prev,
            j,
        ) {
            Some(m) => m.id != completed_relation(prev, i)->0.id,
            None => true,
        } by {
            lemma_take_prefix(events, j);
            assert(completed_relation(prev, j) == completed_relation(events, j));
        }
        lemma_last_relation_wins(prev, i);
        // the last event completes no other relation with this id
        assert(match completed_relation(events, last) {
            Some(m) => m.id != completed_relation(events, i)->0.id,
            None => true,
        });
    }
}

} // verus!

verus! {

/// The well-formed tags among a run of events, in order.
pub open spec fn tag_children(seg: Seq<EventView>) -> Seq<TagView>
    decreases seg.len(),
{
    if seg.len() == 0 {
        Seq::empty()
    } else {
        let before = tag_children(seg.drop_last());
        match seg.last() {
            EventView::Start { name, attributes } => if element_kind(name) == Some(
                ElementKind::Tag,
            ) {
                with_tag(before, attributes)
            } else {
                before
            },
            _ => before,
        }
    }
}

/// The node references among a run of events, in order.
pub open spec fn node_ref_children(seg: Seq<EventView>) -> Seq<UnresolvedReference>
    decreases seg.len(),
{
    if seg.len() == 0 {
        Seq::empty()
    } else {
        let before = node_ref_children(seg.drop_last());
        match seg.last() {
            EventView::Start { name, attributes } => if element_kind(name) == Some(
                ElementKind::NodeRef,
            ) && id_attr(attributes, "ref"@) is Some {
                before.push(UnresolvedReference::Node(id_attr(attributes, "ref"@)->0))
            } else {
                before
            },
            _ => before,
        }
    }
}

/// An event that leaves an open node open.
pub open spec fn keeps_node_open(e: EventView) -> bool {
    match e {
        EventView::Start { name, .. } => element_kind(name) is None || element_kind(name) == Some(
            ElementKind::Tag,
        ),
        EventView::End { name } => element_kind(name) is Some && element_kind(name) != Some(
            ElementKind::Node,
        ),
        _ => true,
    }
}

/// An event that leaves an open way open.
pub open spec fn keeps_way_open(e: EventView) -> bool {
    match e {
        EventView::Start { name, attributes } => element_kind(name) is None || element_kind(name)
            == Some(ElementKind::Tag) || (element_kind(name) == Some(ElementKind::NodeRef)
            && id_attr(attributes, "ref"@) is Some),
        EventView::End { name } => element_kind(name) is Some && element_kind(name) != Some(
            ElementKind::Way,
        ),
        _ => true,
    }
}

/// While a node stays open, its tags are the ones gathered before followed by
/// the well-formed tags that come after, in source order.
pub proof fn lemma_node_tags_in_order(prefix: Seq<EventView>, seg: Seq<EventView>)
    requires
        run(prefix).0 is InNode,
        forall|k: int| 0 <= k < seg.len() ==> keeps_node_open(#[trigger] seg[k]),
    ensures
        run(prefix + seg).0 == match run(prefix).0 {
            PhaseView::InNode(id, lat, lon, tags) => PhaseView::InNode(
                id,
                lat,
                lon,
                tags + tag_children(seg),
            ),
            other => other,
        },
        run(prefix + seg).1 == run(prefix).1,
    decreases seg.len(),
{
    if seg.len() == 0 {
        assert(prefix + seg =~= prefix);
        assert(run(prefix).0->InNode_3 + tag_children(seg) =~= run(prefix).0->InNode_3);
    } else {
        let s = seg.drop_last();
        assert((prefix + seg).drop_last() =~= prefix + s);
        assert((prefix + seg).last() == seg.last());
        assert(keeps_node_open(seg[seg.len() - 1]));
        lemma_node_tags_in_order(prefix, s);
        let tags = run(prefix).0->InNode_3;
        let before = tag_children(s);
        match seg.last() {
            EventView::Start { name, attributes } => {
                if let Some(t) = tag_of(attributes) {
                    assert((tags + before).push(t) =~= tags + before.push(t));
                }
            },
            _ => {},
        }
    }
}

/// While a way stays open, its node references and tags are the ones gathered
/// before followed by those that come after, in source order.
pub proof fn lemma_way_children_in_order(prefix: Seq<EventView>, seg: Seq<EventView>)
    requires
        run(prefix).0 is InWay,
        forall|k: int| 0 <= k < seg.len() ==> keeps_way_open(#[trigger] seg[k]),
    ensures
        run(prefix + seg).0 == match run(prefix).0 {
            PhaseView::InWay(id, nodes, tags) => PhaseView::InWay(
                id,
                nodes + node_ref_children(seg),
                tags + tag_children(seg),
            ),
            other => other,
        },
        run(prefix + seg).1 == run(prefix).1,
    decreases seg.len(),
{
    if seg.len() == 0 {
        assert(prefix + seg =~= prefix);
        assert(run(prefix).0->InWay_1 + node_ref_children(seg) =~= run(prefix).0->InWay_1);
        assert(run(prefix).0->InWay_2 + tag_children(seg) =~= run(prefix).0->InWay_2);
    } else {
        let s = seg.drop_last();
        assert((prefix + seg).drop_last() =~= prefix + s);
        assert((prefix + seg).last() == seg.last());
        assert(keeps_way_open(seg[seg.len() - 1]));
        lemma_way_children_in_order(prefix, s);
        let nodes = run(prefix).0->InWay_1;
        let tags = run(prefix).0->InWay_2;
        let before_nodes = node_ref_children(s);
        let before_tags = tag_children(s);
        match seg.last() {
            EventView::Start { name, attributes } => {
                if let Some(t) = tag_of(attributes) {
                    assert((tags + before_tags).push(t) =~= tags + before_tags.push(t));
                }
                if let Some(r) = id_attr(attributes, "ref"@) {
                    let x = UnresolvedReference::Node(r);
                    assert((nodes + before_nodes).push(x) =~= nodes + before_nodes.push(x));
                }
            },
            _ => {},
        }
    }
}

} // verus!

verus! {

/// The well-formed members among a run of events, in order.
pub open spec fn member_children(seg: Seq<EventView>) -> Seq<MemberView>
    decreases seg.len(),
{
    if seg.len() == 0 {
        Seq::empty()
    } else {
        let before = member_children(seg.drop_last());
        match seg.last() {
            EventView::Start { name, attributes } => if element_kind(name) == Some(
                ElementKind::Member,
            ) && member_of(attributes) is Some {
                before.push(member_of(attributes)->0)
            } else {
                before
            },
            _ => before,
        }
    }
}

/// An event that leaves an open relation open.
pub open spec fn keeps_relation_open(e: EventView) -> bool {
    match e {
        EventView::Start { name, attributes } => element_kind(name) is None || element_kind(name)
            == Some(ElementKind::Tag) || (element_kind(name) == Some(ElementKind::Member)
            && member_of(attributes) is Some),
        EventView::End { name } => element_kind(name) is Some && element_kind(name) != Some(
            ElementKind::Relation,
        ),
        _ => true,
    }
}

/// While a relation stays open, its members and tags are the ones gathered
/// before followed by those that come after, in source order.
pub proof fn lemma_relation_children_in_order(prefix: Seq<EventView>, seg: Seq<EventView>)
    requires
        run(prefix).0 is InRelation,
        forall|k: int| 0 <= k < seg.len() ==> keeps_relation_open(#[trigger] seg[k]),
    ensures
        run(prefix + seg).0 == match run(prefix).0 {
            PhaseView::InRelation(id, members, tags) => PhaseView::InRelation(
                id,
                members + member_children(seg),
                tags + tag_children(seg),
            ),
            other => other,
        },
        run(prefix + seg).1 == run(prefix).1,
    decreases seg.len(),
{
    if seg.len() == 0 {
        assert(prefix + seg =~= prefix);
        assert(run(prefix).0->InRelation_1 + member_children(seg) =~= run(prefix).0->InRelation_1);
        assert(run(prefix).0->InRelation_2 + tag_children(seg) =~= run(prefix).0->InRelation_2);
    } else {
        let s = seg.drop_last();
        assert((prefix + seg).drop_last() =~= prefix + s);
        assert((prefix + seg).last() == seg.last());
        assert(keeps_relation_open(seg[seg.len() - 1]));
        lemma_relation_children_in_order(prefix, s);
        let members = run(prefix).0->InRelation_1;
        let tags = run(prefix).0->InRelation_2;
        let before_members = member_children(s);
        let before_tags = tag_children(s);
        match seg.last() {
            EventView::Start { name, attributes } => {
                if let Some(t) = tag_of(attributes) {
                    assert((tags + before_tags).push(t) =~= tags + before_tags.push(t));
                }
                if let Some(m) = member_of(attributes) {
                    assert((members + before_members).push(m) =~= members + before_members.push(m));
                }
            },
            _ => {},
        }
    }
}

} // verus!

verus! {

/// A node without a valid `id`, `lat` or `lon`, or a way or relation without a
/// valid `id`, is dropped at once: the document stays as it was, and the
/// assembler is back at the top level for the siblings that follow.
pub proof fn lemma_malformed_entity_is_dropped(d: DocView, e: EventView)
    requires
        e matches EventView::Start { name, attributes } && match element_kind(name) {
            Some(ElementKind::Node) => id_attr(attributes, "id"@) is None || coordinate_attr(
                attributes,
                "lat"@,
            ) is None || coordinate_attr(attributes, "lon"@) is None,
            Some(ElementKind::Way) => id_attr(attributes, "id"@) is None,
            Some(ElementKind::Relation) => id_attr(attributes, "id"@) is None,
            _ => false,
        },
    ensures
        step(PhaseView::Root, d, e) == (PhaseView::Root, d),
{
}

/// A tag without `k` or `v` inside an open entity is dropped alone: the
/// entity stays open with the tags it had, and the document is unchanged.
pub proof fn lemma_malformed_tag_is_dropped(p: PhaseView, d: DocView, e: EventView)
    requires
        p is InNode || p is InWay || p is InRelation,
        e matches EventView::Start { name, attributes } && element_kind(name) == Some(
            ElementKind::Tag,
        ) && tag_of(attributes) is None,
    ensures
        step(p, d, e) == (p, d),
{
}

} // verus!

verus! {

/// An event that the top level passes over without a trace: the start of a
/// malformed node, way or relation, the start of a tag, node reference, member
/// or unknown element, any closing tag, and anything that is not an element.
pub open spec fn passes_at_root(e: EventView) -> bool {
    match e {
        EventView::Start { name, attributes } => match element_kind(name) {
            Some(ElementKind::Node) => id_attr(attributes, "id"@) is None || coordinate_attr(
                attributes,
                "lat"@,
            ) is None || coordinate_attr(attributes, "lon"@) is None,
            Some(ElementKind::Way) => id_attr(attributes, "id"@) is None,
            Some(ElementKind::Relation) => id_attr(attributes, "id"@) is None,
            Some(ElementKind::Bounds) => false,
            _ => true,
        },
        EventView::EndOfDocument => false,
        _ => true,
    }
}

/// Two prefixes that leave the assembler in the same state leave it in the
/// same state after the same continuation.
proof fn lemma_run_congruent(x: Seq<EventView>, y: Seq<EventView>, b: Seq<EventView>)
    requires
        run(x) == run(y),
    ensures
        run(x + b) == run(y + b),
    decreases b.len(),
{
    if b.len() == 0 {
        assert(x + b =~= x);
        assert(y + b =~= y);
    } else {
        lemma_run_congruent(x, y, b.drop_last());
        assert((x + b).drop_last() =~= x + b.drop_last());
        assert((y + b).drop_last() =~= y + b.drop_last());
        assert((x + b).last() == b.last());
        assert((y + b).last() == b.last());
    }
}

proof fn lemma_root_passes_over(a: Seq<EventView>, seg: Seq<EventView>)
    requires
        run(a).0 is Root,
        forall|k: int| 0 <= k < seg.len() ==> passes_at_root(#[trigger] seg[k]),
    ensures
        run(a + seg) == run(a),
    decreases seg.len(),
{
    if seg.len() == 0 {
        assert(a + seg =~= a);
    } else {
        let s = seg.drop_last();
        lemma_root_passes_over(a, s);
        assert((a + seg).drop_last() =~= a + s);
        assert((a + seg).last() == seg.last());
        assert(passes_at_root(seg[seg.len() - 1]));
    }
}

/// A malformed node, way or relation met at the top level, taken together
/// with the tag, node-reference and member elements inside it and all their
/// closing tags, leaves no trace: the document built with it is the document
/// built without it, with every sibling before and after as it would be.
pub proof fn lemma_dropped_element_leaves_no_trace(
    a: Seq<EventView>,
    seg: Seq<EventView>,
    b: Seq<EventView>,
)
    requires
        run(a).0 is Root,
        forall|k: int| 0 <= k < seg.len() ==> passes_at_root(#[trigger] seg[k]),
    ensures
        document_of(a + seg + b) == document_of(a + b),
{
    lemma_root_passes_over(a, seg);
    lemma_run_congruent(a + seg, a, b);
}

} // verus!

verus! {

/// The events of one element: its start, the events inside it, its end.
pub open spec fn element_events(
    a: Seq<EventView>,
    name: Seq<char>,
    attrs: Seq<AttributeView>,
    seg: Seq<EventView>,
    end: Seq<char>,
) -> Seq<EventView> {
    a.push(EventView::Start { name, attributes: attrs }) + seg + seq![EventView::End { name: end }]
}

/// The node that a start tag's attributes and the events inside it make.
pub open spec fn assembled_node(attrs: Seq<AttributeView>, seg: Seq<EventView>) -> NodeView {
    NodeView {
        id: id_attr(attrs, "id"@)->0,
        lat: coordinate_attr(attrs, "lat"@)->0,
        lon: coordinate_attr(attrs, "lon"@)->0,
        tags: tag_children(seg),
    }
}

/// The way that a start tag's attributes and the events inside it make.
pub open spec fn assembled_way(attrs: Seq<AttributeView>, seg: Seq<EventView>) -> WayView {
    WayView { id: id_attr(attrs, "id"@)->0, nodes: node_ref_children(seg), tags: tag_children(seg) }
}

/// A node that opens at the top level with a valid `id`, `lat` and `lon`, and
/// closes after children that keep it open, is stored under its id with
/// exactly the well-formed tags among them, in source order; nothing else in
/// the document changes.
pub proof fn lemma_node_assembled_in_order(
    a: Seq<EventView>,
    name: Seq<char>,
    attrs: Seq<AttributeView>,
    seg: Seq<EventView>,
    end: Seq<char>,
)
    requires
        run(a).0 is Root,
        element_kind(name) == Some(ElementKind::Node),
        id_attr(attrs, "id"@) is Some,
        coordinate_attr(attrs, "lat"@) is Some,
        coordinate_attr(attrs, "lon"@) is Some,
        forall|k: int| 0 <= k < seg.len() ==> keeps_node_open(#[trigger] seg[k]),
        element_kind(end) == Some(ElementKind::Node),
    ensures
        document_of(element_events(a, name, attrs, seg, end)).nodes == document_of(a).nodes.insert(
            id_attr(attrs, "id"@)->0,
            assembled_node(attrs, seg),
        ),
        document_of(element_events(a, name, attrs, seg, end)).ways == document_of(a).ways,
        document_of(element_events(a, name, attrs, seg, end)).relations == document_of(a).relations,
        document_of(element_events(a, name, attrs, seg, end)).bounds == document_of(a).bounds,
{
    let opened = a.push(EventView::Start { name, attributes: attrs });
    assert(opened.drop_last() =~= a);
    lemma_node_tags_in_order(opened, seg);
    assert(Seq::<TagView>::empty() + tag_children(seg) =~= tag_children(seg));
    let x = opened + seg;
    assert((x + seq![EventView::End { name: end }]).drop_last() =~= x);
}

/// A way that opens at the top level with a valid `id`, and closes after
/// children that keep it open, is stored under its id with exactly the node
/// references and well-formed tags among them, in source order; nothing else
/// in the document changes.
pub proof fn lemma_way_assembled_in_order(
    a: Seq<EventView>,
    name: Seq<char>,
    attrs: Seq<AttributeView>,
    seg: Seq<EventView>,
    end: Seq<char>,
)
    requires
        run(a).0 is Root,
        element_kind(name) == Some(ElementKind::Way),
        id_attr(attrs, "id"@) is Some,
        forall|k: int| 0 <= k < seg.len() ==> keeps_way_open(#[trigger] seg[k]),
        element_kind(end) == Some(ElementKind::Way),
    ensures
        document_of(element_events(a, name, attrs, seg, end)).ways == document_of(a).ways.insert(
            id_attr(attrs, "id"@)->0,
            assembled_way(attrs, seg),
        ),
        document_of(element_events(a, name, attrs, seg, end)).nodes == document_of(a).nodes,
        document_of(element_events(a, name, attrs, seg, end)).relations == document_of(a).relations,
        document_of(element_events(a, name, attrs, seg, end)).bounds == document_of(a).bounds,
{
    let opened = a.push(EventView::Start { name, attributes: attrs });
    assert(opened.drop_last() =~= a);
    lemma_way_children_in_order(opened, seg);
    assert(Seq::<TagView>::empty() + tag_children(seg) =~= tag_children(seg));
    assert(Seq::<UnresolvedReference>::empty() + node_ref_children(seg) =~= node_ref_children(seg));
    let x = opened + seg;
    assert((x + seq![EventView::End { name: end }]).drop_last() =~= x);
}

} // verus!
