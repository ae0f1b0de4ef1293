use vstd::prelude::*;

use crate::elements::{Tag, TagView, UnresolvedReference, Way, WayView};
use crate::text::same_text;

verus! {

/// How a rule treats the values of its key.
#[derive(Debug, Clone, Copy, PartialEq, Eq, Structural)]
pub enum RuleType {
    /// Every value makes a polygon.
    All,
    /// Every value but the listed ones makes a polygon; each blacklist of the
    /// table lists the empty value.
    Blacklist,
    /// Only the listed values, never the empty one, make a polygon.
    Whitelist,
}

/// One entry of the polygon rule table.
pub struct Rule {
    pub key: &'static str,
    pub polygon: RuleType,
    pub values: Vec<&'static str>,
}

pub struct RuleView {
    pub key: &'static str,
    pub polygon: RuleType,
    pub values: Seq<&'static str>,
}

impl View for Rule {
    type V = RuleView;

    open spec fn view(&self) -> RuleView {
        RuleView { key: self.key, polygon: self.polygon, values: self.values@ }
    }
}

pub open spec fn rule_entry(key: &'static str, polygon: RuleType, values: Seq<&'static str>) -> RuleView {
    RuleView { key, polygon, values }
}

/// The fixed table of keys that mark an open way as an area.
pub open spec fn rule_table() -> Seq<RuleView> {
    seq![
        rule_entry("building", RuleType::All, seq![]),
        rule_entry("highway", RuleType::Whitelist, seq!["services", "rest_area", "escape", "elevator"]),
        rule_entry("natural", RuleType::Blacklist, seq!["coastline", "cliff", "ridge", "arete", "tree_row", ""]),
        rule_entry("landuse", RuleType::All, seq![]),
        rule_entry("waterway", RuleType::Whitelist, seq!["riverbank", "dock", "boatyard", "dam"]),
        rule_entry("amenity", RuleType::All, seq![]),
        rule_entry("leisure", RuleType::All, seq![]),
        rule_entry("barrier", RuleType::Whitelist, seq!["city_wall", "ditch", "hedge", "retaining_wall", "wall", "spikes"]),
        rule_entry("railway", RuleType::Whitelist, seq!["station", "turntable", "roundhouse", "platform"]),
        rule_entry("area", RuleType::All, seq![]),
        rule_entry("boundary", RuleType::All, seq![]),
        rule_entry("man_made", RuleType::Blacklist, seq!["cutline", "embankment", "pipeline", ""]),
        rule_entry("power", RuleType::Whitelist, seq!["plant", "substation", "generator", "transformer"]),
        rule_entry("place", RuleType::All, seq![]),
        rule_entry("shop", RuleType::All, seq![]),
        rule_entry("aeroway", RuleType::Blacklist, seq!["taxiway", ""]),
        rule_entry("tourism", RuleType::All, seq![]),
        rule_entry("historic", RuleType::All, seq![]),
        rule_entry("public_transport", RuleType::All, seq![]),
        rule_entry("office", RuleType::All, seq![]),
        rule_entry("building:part", RuleType::All, seq![]),
        rule_entry("military", RuleType::All, seq![]),
        rule_entry("ruins", RuleType::All, seq![]),
        rule_entry("area:highway", RuleType::All, seq![]),
        rule_entry("craft", RuleType::All, seq![]),
        rule_entry("golf", RuleType::All, seq![]),
    ]
}

/// Whether the value is among the listed ones.
pub open spec fn listed(values: Seq<&'static str>, val: Seq<char>) -> bool {
    exists|k: int| 0 <= k < values.len() && #[trigger] values[k]@ == val
}

/// Whether the rule's policy accepts a value.
pub open spec fn accepts(rule: RuleView, val: Seq<char>) -> bool {
    match rule.polygon {
        RuleType::All => true,
        RuleType::Whitelist => val.len() > 0 && listed(rule.values, val),
        RuleType::Blacklist => !listed(rule.values, val),
    }
}

/// A tag makes its way a polygon when its value is not `no` and some rule for
/// its key accepts the value.
pub open spec fn tag_qualifies(t: TagView) -> bool {
    t.val != "no"@ && exists|i: int|
        0 <= i < rule_table().len() && #[trigger] rule_table()[i].key@ == t.key && accepts(
            rule_table()[i],
            t.val,
        )
}

/// The first and the last node reference are one and the same.
pub open spec fn closed_loop(nodes: Seq<UnresolvedReference>) -> bool {
    nodes.len() > 0 && nodes[0] == nodes.last()
}

/// A way is a polygon when it is a closed ring or one of its tags qualifies.
pub open spec fn polygon(w: WayView) -> bool {
    closed_loop(w.nodes) || exists|i: int| 0 <= i < w.tags.len() && tag_qualifies(#[trigger] w.tags[i])
}

/// A way whose first and last node references are equal is a polygon,
/// whatever its tags.
pub proof fn lemma_closed_ring_is_polygon(w: WayView)
    requires
        closed_loop(w.nodes),
    ensures
        polygon(w),
{
}

/// A tag whose value is `no` never makes its way a polygon, under any policy;
/// another tag of the same way still can.
pub proof fn lemma_no_is_per_tag(w: WayView, i: int, j: int)
    requires
        0 <= i < w.tags.len(),
        0 <= j < w.tags.len(),
        w.tags[i].val == "no"@,
        tag_qualifies(w.tags[j]),
    ensures
        !tag_qualifies(w.tags[i]),
        polygon(w),
{
}

fn rule(key: &'static str, polygon: RuleType, values: Vec<&'static str>) -> (r: Rule)
    ensures
        r@ == rule_entry(key, polygon, values@),
{
    Rule { key, polygon, values }
}

/// Builds the rule table.
pub fn rules() -> (r: Vec<Rule>)
    ensures
        r@.len() == rule_table().len(),
        forall|i: int| 0 <= i < r@.len() ==> #[trigger] r@[i]@ == rule_table()[i],
{
    let r = vec![
        rule("building", RuleType::All, vec![]),
        rule("highway", RuleType::Whitelist, vec!["services", "rest_area", "escape", "elevator"]),
        rule("natural", RuleType::Blacklist, vec!["coastline", "cliff", "ridge", "arete", "tree_row", ""]),
        rule("landuse", RuleType::All, vec![]),
        rule("waterway", RuleType::Whitelist, vec!["riverbank", "dock", "boatyard", "dam"]),
        rule("amenity", RuleType::All, vec![]),
        rule("leisure", RuleType::All, vec![]),
        rule("barrier", RuleType::Whitelist, vec!["city_wall", "ditch", "hedge", "retaining_wall", "wall", "spikes"]),
        rule("railway", RuleType::Whitelist, vec!["station", "turntable", "roundhouse", "platform"]),
        rule("area", RuleType::All, vec![]),
        rule("boundary", RuleType::All, vec![]),
        rule("man_made", RuleType::Blacklist, vec!["cutline", "embankment", "pipeline", ""]),
        rule("power", RuleType::Whitelist, vec!["plant", "substation", "generator", "transformer"]),
        rule("place", RuleType::All, vec![]),
        rule("shop", RuleType::All, vec![]),
        rule("aeroway", RuleType::Blacklist, vec!["taxiway", ""]),
        rule("tourism", RuleType::All, vec![]),
        rule("historic", RuleType::All, vec![]),
        rule("public_transport", RuleType::All, vec![]),
        rule("office", RuleType::All, vec![]),
        rule("building:part", RuleType::All, vec![]),
        rule("military", RuleType::All, vec![]),
        rule("ruins", RuleType::All, vec![]),
        rule("area:highway", RuleType::All, vec![]),
        rule("craft", RuleType::All, vec![]),
        rule("golf", RuleType::All, vec![]),
    ];
    proof {
        assert(r@.len() == rule_table().len());
        assert forall|i: int| 0 <= i < r@.len() implies #[trigger] r@[i]@ == rule_table()[i] by {
            assert(r@[i].values@ == rule_table()[i].values);
        }
    }
    r
}

/// Whether the way's first and last node references are equal.
pub fn is_closed_loop(way: &Way) -> (r: bool)
    ensures
        r == closed_loop(way.nodes@),
{
    let n = way.nodes.len();
    if n == 0 {
        return false;
    }
    way.nodes[0] == way.nodes[n - 1]
}

/// Whether the rule's policy accepts the tag's value.
pub fn has_matching_rule_value(rule: &Rule, tag: &Tag) -> (r: bool)
    ensures
        r == accepts(rule@, tag.val@),
{
    let mut found = false;
    let mut j: usize = 0;
    while j < rule.values.len()
        invariant
            j <= rule.values@.len(),
            found == exists|k: int| 0 <= k < j && #[trigger] rule.values@[k]@ == tag.val@,
        decreases rule.values@.len() - j,
    {
        if same_text(rule.values[j], tag.val.as_str()) {
            found = true;
        }
        j += 1;
    }
    match rule.polygon {
        RuleType::All => true,
        RuleType::Whitelist => tag.val.unicode_len() > 0 && found,
        RuleType::Blacklist => !found,
    }
}

/// Whether a way encloses an area: a closed ring, or a tag that a rule of the
/// table accepts.
pub fn is_polygon(way: &Way) -> (r: bool)
    ensures
        r == polygon(way@),
{
    if is_closed_loop(way) {
        return true;
    }
    let table = rules();
    let ghost tags = way@.tags;
    let mut i: usize = 0;
    while i < way.tags.len()
        invariant
            i <= way.tags@.len(),
            tags == way@.tags,
            !closed_loop(way.nodes@),
            table@.len() == rule_table().len(),
            forall|k: int| 0 <= k < table@.len() ==> #[trigger] table@[k]@ == rule_table()[k],
            forall|k: int| 0 <= k < i ==> !tag_qualifies(#[trigger] tags[k]),
        decreases way.tags@.len() - i,
    {
        let tag = &way.tags[i];
        assert(tags[i as int] == tag@);
        if !same_text(tag.val.as_str(), "no") {
            let mut j: usize = 0;
            while j < table.len()
                invariant
                    i < way.tags@.len(),
                    tags == way@.tags,
                    tag == way.tags@[i as int],
                    tag@.val != "no"@,
                    table@.len() == rule_table().len(),
                    forall|k: int| 0 <= k < table@.len() ==> #[trigger] table@[k]@ == rule_table()[k],
                    j <= table@.len(),
                    forall|k: int|
                        0 <= k < j ==> !(#[trigger] rule_table()[k].key@ == tag@.key && accepts(
                            rule_table()[k],
                            tag@.val,
                        )),
                decreases table@.len() - j,
            {
                assert(table@[j as int]@ == rule_table()[j as int]);
                if same_text(table[j].key, tag.key.as_str()) && has_matching_rule_value(&table[j], tag) {
                    assert(rule_table()[j as int].key@ == tag@.key);
                    assert(tag_qualifies(tags[i as int]));
                    return true;
                }
                j += 1;
            }
        }
        i += 1;
    }
    false
}

} // verus!
