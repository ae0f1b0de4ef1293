use toba_osm_router as osm;
use toba_osm_router::{Coordinate, OSM};

fn as_f64(c: Coordinate) -> f64 {
   c.mantissa as f64 / 10f64.powi(c.scale as i32)
}

const BOUNDS: &str = r#"<?xml version="1.0" encoding="UTF-8"?>
<osm version="0.6" generator="test">
 <bounds minlat="54.0889580" minlon="12.2487570" maxlat="54.0913900" maxlon="12.2524800"/>
</osm>"#;

const BOUNDS_MISSING_COORD: &str = r#"<?xml version="1.0" encoding="UTF-8"?>
<osm version="0.6" generator="test">
 <bounds minlat="54.0889580" minlon="12.2487570" maxlat="54.0913900"/>
</osm>"#;

const BOUNDS_INVALID_COORD: &str = r#"<?xml version="1.0" encoding="UTF-8"?>
<osm version="0.6" generator="test">
 <bounds minlat="54.0889580" minlon="12.2487570" maxlat="54.0913900" maxlon="twelve"/>
</osm>"#;

const TWO_NODES: &str = r#"<?xml version="1.0" encoding="UTF-8"?>
<osm version="0.6" generator="test">
 <node id="25496583" lat="51.5173639" lon="-0.140043" version="1">
  <tag k="highway" v="traffic_signals"/>
  <tag k="test_key" v="test_value"/>
 </node>
 <node id="25496584" lat="51.5173640" lon="-0.140041" version="1"/>
</osm>"#;

const INVALID_NODES: &str = r#"<?xml version="1.0" encoding="UTF-8"?>
<osm version="0.6" generator="test">
 <node id="25496583" lat="51.5173639" lon="-0.140043">
  <node id="25496584" lat="51.5173640" lon="-0.140041"/>
 </node>
 <node id="25496585" lat="51.5173641" lon="-0.140042"/>
 <node id="25496589" lon="-0.140042"/>
 <node id="25496586" lat="51.5173642" lon="-0.140043"/>
 <node id="25496590" lat="north" lon="-0.140042"/>
 <node id="25496587" lat="51.5173643" lon="-0.140044">
  <tag k="highway" v="traffic_signals"/>
  <tag k="missing_value"/>
 </node>
 <node id="25496588" lat="51.5173644" lon="-0.140045">
  <way id="1"/>
 </node>
</osm>"#;

const WAY: &str = r#"<?xml version="1.0" encoding="UTF-8"?>
<osm version="0.6" generator="test">
 <node id="1375815878" lat="60.4501" lon="22.2601"/>
 <node id="391448656" lat="60.4502" lon="22.2602"/>
 <node id="340886677" lat="60.4503" lon="22.2603"/>
 <node id="1651393269" lat="60.4504" lon="22.2604"/>
 <node id="471408613" lat="60.4505" lon="22.2605"/>
 <node id="25470395" lat="60.4506" lon="22.2606"/>
 <node id="1376857625" lat="60.4507" lon="22.2607"/>
 <way id="4253174" version="1">
  <nd ref="1375815878"/>
  <nd ref="391448656"/>
  <nd ref="340886677"/>
  <nd ref="1651393269"/>
  <nd ref="471408613"/>
  <nd ref="25470395"/>
  <nd ref="1376857625"/>
  <tag k="highway" v="residential"/>
  <tag k="lanes" v="1"/>
  <tag k="lit" v="yes"/>
  <tag k="maxspeed" v="30"/>
  <tag k="name" v="Maurinkatu"/>
  <tag k="name:fi" v="Maurinkatu"/>
  <tag k="name:sv" v="Mauritzgatan"/>
  <tag k="old_name:fi" v="Mauritsinkatu"/>
  <tag k="snowplowing" v="yes"/>
  <tag k="start_date" v="before 1815"/>
  <tag k="surface" v="paved"/>
 </way>
 <way id="4253123" version="1">
  <nd ref="1375815878"/>
  <nd ref="999999999"/>
 </way>
</osm>"#;

const RELATIONS: &str = r#"<?xml version="1.0" encoding="UTF-8"?>
<osm version="0.6" generator="test">
 <node id="345579224" lat="60.1" lon="24.1"/>
 <node id="345579225" lat="60.2" lon="24.2"/>
 <way id="123365172"><nd ref="345579224"/></way>
 <way id="22147620"><nd ref="345579225"/></way>
 <relation id="77994">
  <member type="node" ref="345579224" role="camera"/>
  <member type="node" ref="345579225" role="visible"/>
  <tag k="type" v="surveillance"/>
 </relation>
 <relation id="1688359">
  <member type="way" ref="123365172" role="outer"/>
  <member type="way" ref="22147620" role="inner"/>
  <tag k="type" v="multipolygon"/>
 </relation>
 <relation id="375952">
  <tag k="name" v="first"/>
 </relation>
 <relation id="375951">
  <tag k="name" v="second"/>
 </relation>
 <relation id="155054">
  <member type="relation" ref="375952" role="subarea"/>
  <member type="relation" ref="375951" role="subarea"/>
 </relation>
 <relation id="987654">
  <member type="node" ref="111" role=""/>
  <member type="way" ref="222" role=""/>
  <member type="relation" ref="333" role=""/>
 </relation>
</osm>"#;

#[test]
fn bounds_parsing() {
   let osm = OSM::parse(BOUNDS.as_bytes()).unwrap();
   let bounds = osm.bounds.unwrap();
   assert_eq!(as_f64(bounds.minlat), 54.0889580);
   assert_eq!(as_f64(bounds.minlon), 12.2487570);
   assert_eq!(as_f64(bounds.maxlat), 54.0913900);
   assert_eq!(as_f64(bounds.maxlon), 12.2524800);
}

#[test]
fn bounds_parsing_missing_coordinate() {
   let osm = OSM::parse(BOUNDS_MISSING_COORD.as_bytes()).unwrap();
   assert_eq!(osm.bounds, None);
}

#[test]
fn bounds_parsing_invalid_coordinate() {
   let osm = OSM::parse(BOUNDS_INVALID_COORD.as_bytes()).unwrap();
   assert_eq!(osm.bounds, None);
}

#[test]
fn no_nodes() {
   let osm = OSM::parse(BOUNDS.as_bytes()).unwrap();
   assert!(osm.nodes.is_empty());
}

#[test]
fn node_existence() {
   let osm = OSM::parse(TWO_NODES.as_bytes()).unwrap();
   assert_eq!(osm.nodes.len(), 2);
}

#[test]
fn node_ids() {
   let osm = OSM::parse(TWO_NODES.as_bytes()).unwrap();
   assert_eq!(osm.nodes[&25496583].id, 25496583);
   assert_eq!(osm.nodes[&25496584].id, 25496584);
}

#[test]
fn node_coordinates() {
   let osm = OSM::parse(TWO_NODES.as_bytes()).unwrap();
   assert_eq!(as_f64(osm.nodes[&25496583].lat), 51.5173639);
   assert_eq!(as_f64(osm.nodes[&25496583].lon), -0.140043);
   assert_eq!(as_f64(osm.nodes[&25496584].lat), 51.5173640);
   assert_eq!(as_f64(osm.nodes[&25496584].lon), -0.140041);
}

#[test]
fn skip_only_malformed_nodes() {
   let osm = OSM::parse(INVALID_NODES.as_bytes()).unwrap();
   assert_eq!(osm.nodes.len(), 3);

   let node = osm.nodes.values().find(|n| n.id == 25496585);
   assert!(node.is_some());
   let node = osm.nodes.values().find(|n| n.id == 25496586);
   assert!(node.is_some());
   let node = osm.nodes.values().find(|n| n.id == 25496587);
   assert!(node.is_some());
}

#[test]
fn skip_malformed_node_with_child_node() {
   let osm = OSM::parse(INVALID_NODES.as_bytes()).unwrap();
   assert_eq!(osm.nodes.values().find(|n| n.id == 25496583), None);
   assert_eq!(osm.nodes.values().find(|n| n.id == 25496584), None);
}

#[test]
fn skip_malformed_node_with_child_way() {
   let osm = OSM::parse(INVALID_NODES.as_bytes()).unwrap();
   assert_eq!(osm.nodes.values().find(|n| n.id == 25496588), None);
}

#[test]
fn node_tag_existence() {
   let osm = OSM::parse(TWO_NODES.as_bytes()).unwrap();
   assert_eq!(osm.nodes[&25496583].tags.len(), 2);
   assert_eq!(osm.nodes[&25496584].tags.len(), 0);
}

#[test]
fn node_tag_contents() {
   let osm = OSM::parse(TWO_NODES.as_bytes()).unwrap();
   assert_eq!(osm.nodes[&25496583].tags[0].key, "highway".to_string());
   assert_eq!(
      osm.nodes[&25496583].tags[0].val,
      "traffic_signals".to_string()
   );
   assert_eq!(osm.nodes[&25496583].tags[1].key, "test_key".to_string());
   assert_eq!(osm.nodes[&25496583].tags[1].val, "test_value".to_string());
}

#[test]
fn skip_malformed_node_tags() {
   let osm = OSM::parse(INVALID_NODES.as_bytes()).unwrap();

   let node = osm.nodes.values().find(|n| n.id == 25496587);
   assert_eq!(node.unwrap().tags.len(), 1);
}

#[test]
fn way_existence() {
   let osm = OSM::parse(WAY.as_bytes()).unwrap();

   assert_eq!(osm.ways.len(), 2);
   assert_eq!(osm.ways[&4253174].id, 4253174);
   assert_eq!(osm.ways[&4253123].id, 4253123);
}

#[test]
fn way_tags() {
   let osm = OSM::parse(WAY.as_bytes()).unwrap();

   assert_eq!(osm.ways[&4253174].tags.len(), 11);
   assert_eq!(osm.ways[&4253174].tags[0].key, "highway".to_string());
   assert_eq!(osm.ways[&4253174].tags[0].val, "residential".to_string());
   assert_eq!(osm.ways[&4253174].tags[1].key, "lanes".to_string());
   assert_eq!(osm.ways[&4253174].tags[1].val, "1".to_string());
   assert_eq!(osm.ways[&4253174].tags[2].key, "lit".to_string());
   assert_eq!(osm.ways[&4253174].tags[2].val, "yes".to_string());
   assert_eq!(osm.ways[&4253174].tags[3].key, "maxspeed".to_string());
   assert_eq!(osm.ways[&4253174].tags[3].val, "30".to_string());
   assert_eq!(osm.ways[&4253174].tags[4].key, "name".to_string());
   assert_eq!(osm.ways[&4253174].tags[4].val, "Maurinkatu".to_string());
   assert_eq!(osm.ways[&4253174].tags[5].key, "name:fi".to_string());
   assert_eq!(osm.ways[&4253174].tags[5].val, "Maurinkatu".to_string());
   assert_eq!(osm.ways[&4253174].tags[6].key, "name:sv".to_string());
   assert_eq!(osm.ways[&4253174].tags[6].val, "Mauritzgatan".to_string());
   assert_eq!(osm.ways[&4253174].tags[7].key, "old_name:fi".to_string());
   assert_eq!(osm.ways[&4253174].tags[7].val, "Mauritsinkatu".to_string());
   assert_eq!(osm.ways[&4253174].tags[8].key, "snowplowing".to_string());
   assert_eq!(osm.ways[&4253174].tags[8].val, "yes".to_string());
   assert_eq!(osm.ways[&4253174].tags[9].key, "start_date".to_string());
   assert_eq!(osm.ways[&4253174].tags[9].val, "before 1815".to_string());
   assert_eq!(osm.ways[&4253174].tags[10].key, "surface".to_string());
   assert_eq!(osm.ways[&4253174].tags[10].val, "paved".to_string());
}

#[test]
fn way_node_references() {
   let osm = OSM::parse(WAY.as_bytes()).unwrap();

   let nodes = &osm.ways[&4253174].nodes;
   assert_eq!(nodes.len(), 7);

   match nodes[0] {
      osm::UnresolvedReference::Node(id) => assert_eq!(id, 1375815878),
      _ => panic!("Way reference was not reference to Node!"),
   }
   match nodes[1] {
      osm::UnresolvedReference::Node(id) => assert_eq!(id, 391448656),
      _ => panic!("Way reference was not reference to Node!"),
   }
   match nodes[2] {
      osm::UnresolvedReference::Node(id) => assert_eq!(id, 340886677),
      _ => panic!("Way reference was not reference to Node!"),
   }
   match nodes[3] {
      osm::UnresolvedReference::Node(id) => assert_eq!(id, 1651393269),
      _ => panic!("Way reference was not reference to Node!"),
   }
   match nodes[4] {
      osm::UnresolvedReference::Node(id) => assert_eq!(id, 471408613),
      _ => panic!("Way reference was not reference to Node!"),
   }
   match nodes[5] {
      osm::UnresolvedReference::Node(id) => assert_eq!(id, 25470395),
      _ => panic!("Way reference was not reference to Node!"),
   }
   match nodes[6] {
      osm::UnresolvedReference::Node(id) => assert_eq!(id, 1376857625),
      _ => panic!("Way reference was not reference to Node!"),
   }
}

#[test]
fn relation_existence() {
   let osm = OSM::parse(RELATIONS.as_bytes()).unwrap();

   assert_eq!(osm.relations.len(), 6);
   assert_eq!(osm.relations[&77994].id, 77994);
   assert_eq!(osm.relations[&1688359].id, 1688359);
   assert_eq!(osm.relations[&375952].id, 375952);
   assert_eq!(osm.relations[&375951].id, 375951);
   assert_eq!(osm.relations[&155054].id, 155054);
   assert_eq!(osm.relations[&987654].id, 987654);
}

#[test]
fn relation_tags() {
   let osm = OSM::parse(RELATIONS.as_bytes()).unwrap();

   let tags = &osm.relations[&77994].tags;
   assert_eq!(tags[0].key, "type".to_string());
   assert_eq!(tags[0].val, "surveillance".to_string());
}

#[test]
fn relation_node_members() {
   let osm = OSM::parse(RELATIONS.as_bytes()).unwrap();

   match osm.relations[&77994].members[0] {
      osm::Member::Node(ref ref_id, ref role) => {
         match *ref_id {
            osm::UnresolvedReference::Node(id) => assert_eq!(id, 345579224),
            _ => panic!("Member reference was wrong type!"),
         }
         assert_eq!(*role, "camera".to_string());
      }
      _ => panic!("Member was not expected Member-variant"),
   }

   match osm.relations[&77994].members[1] {
      osm::Member::Node(ref ref_id, ref role) => {
         match *ref_id {
            osm::UnresolvedReference::Node(id) => assert_eq!(id, 345579225),
            _ => panic!("Member reference was wrong type!"),
         }
         assert_eq!(*role, "visible".to_string());
      }
      _ => panic!("Member was not expected Member-variant"),
   }
}

#[test]
fn relation_way_members() {
   let osm = OSM::parse(RELATIONS.as_bytes()).unwrap();

   match osm.relations[&1688359].members[0] {
      osm::Member::Way(ref ref_id, ref role) => {
         match *ref_id {
            osm::UnresolvedReference::Way(id) => assert_eq!(id, 123365172),
            _ => panic!("Member reference was wrong type!"),
         }
         assert_eq!(*role, "outer".to_string());
      }
      _ => panic!("Member was not expected Member-variant"),
   }

   match osm.relations[&1688359].members[1] {
      osm::Member::Way(ref ref_id, ref role) => {
         match *ref_id {
            osm::UnresolvedReference::Way(id) => assert_eq!(id, 22147620),
            _ => panic!("Member reference was wrong type!"),
         }
         assert_eq!(*role, "inner".to_string());
      }
      _ => panic!("Member was not expected Member-variant"),
   }
}

#[test]
fn way_reference_resolving() {
   let osm = OSM::parse(WAY.as_bytes()).unwrap();

   for node_ref in osm.ways[&4253174].nodes.iter() {
      match osm.resolve_reference(node_ref) {
         osm::Reference::Node(_) => continue,
         osm::Reference::Unresolved => panic!("Resolvable way node was not resolved!"),
         _ => panic!("Valid way references are always Nodes!"),
      }
   }
}

#[test]
fn way_invalid_reference_resolving() {
   let osm = OSM::parse(WAY.as_bytes()).unwrap();

   match osm.resolve_reference(&osm.ways[&4253123].nodes[0]) {
      osm::Reference::Node(node) => assert_eq!(*node, osm.nodes[&1375815878]),
      osm::Reference::Unresolved => panic!("Resolvable way node was not resolved!"),
      _ => panic!("Valid way references are always Nodes!"),
   }

   match osm.resolve_reference(&osm.ways[&4253123].nodes[1]) {
      osm::Reference::Unresolved => (),
      _ => panic!("Unresolvable Node reference was resolved!"),
   }
}

#[test]
fn relation_node_reference_resolving() {
   let osm = OSM::parse(RELATIONS.as_bytes()).unwrap();

   match osm.relations[&77994].members[0] {
      osm::Member::Node(ref mref, _) => match osm.resolve_reference(mref) {
         osm::Reference::Node(node) => assert_eq!(*node, osm.nodes[&345579224]),
         _ => panic!("Resolvable Relation member was not resolved!"),
      },
      _ => panic!("Member should have been Node!"),
   }

   match osm.relations[&77994].members[1] {
      osm::Member::Node(ref mref, _) => match osm.resolve_reference(mref) {
         osm::Reference::Node(node) => assert_eq!(*node, osm.nodes[&345579225]),
         _ => panic!("Resolvable Relation member was not resolved!"),
      },
      _ => panic!("Member should have been Node!"),
   }
}

#[test]
fn relation_way_reference_resolving() {
   let osm = OSM::parse(RELATIONS.as_bytes()).unwrap();

   match osm.relations[&1688359].members[0] {
      osm::Member::Way(ref mref, _) => match osm.resolve_reference(mref) {
         osm::Reference::Way(way) => assert_eq!(*way, osm.ways[&123365172]),
         _ => panic!("Resolvable Relation member was not resolved!"),
      },
      _ => panic!("Member should have been Way!"),
   }

   match osm.relations[&1688359].members[1] {
      osm::Member::Way(ref mref, _) => match osm.resolve_reference(mref) {
         osm::Reference::Way(way) => assert_eq!(*way, osm.ways[&22147620]),
         _ => panic!("Resolvable Relation member was not resolved!"),
      },
      _ => panic!("Member should have been Way!"),
   }
}

#[test]
fn relation_relation_reference_resolving() {
   let osm = OSM::parse(RELATIONS.as_bytes()).unwrap();

   match osm.relations[&155054].members[0] {
      osm::Member::Relation(ref mref, _) => match osm.resolve_reference(mref) {
         osm::Reference::Relation(rel) => assert_eq!(*rel, osm.relations[&375952]),
         _ => panic!("Resolvable Relation member was not resolved!"),
      },
      _ => panic!("Member should have been Relation!"),
   }

   match osm.relations[&155054].members[1] {
      osm::Member::Relation(ref mref, _) => match osm.resolve_reference(mref) {
         osm::Reference::Relation(rel) => assert_eq!(*rel, osm.relations[&375951]),
         _ => panic!("Resolvable Relation member was not resolved!"),
      },
      _ => panic!("Member should have been Relation!"),
   }
}

#[test]
fn relation_with_unresolvable_node() {
   let osm = OSM::parse(RELATIONS.as_bytes()).unwrap();

   match osm.relations[&987654].members[0] {
      osm::Member::Node(ref mref, _) => match osm.resolve_reference(mref) {
         osm::Reference::Unresolved => assert!(true),
         _ => panic!("Unresolvable reference was resolved"),
      },
      _ => panic!("Member should have been Node!"),
   }

   match osm.relations[&987654].members[1] {
      osm::Member::Way(ref mref, _) => match osm.resolve_reference(mref) {
         osm::Reference::Unresolved => assert!(true),
         _ => panic!("Unresolvable reference was resolved"),
      },
      _ => panic!("Member should have been Way!"),
   }

   match osm.relations[&987654].members[2] {
      osm::Member::Relation(ref mref, _) => match osm.resolve_reference(mref) {
         osm::Reference::Unresolved => assert!(true),
         _ => panic!("Unresolvable reference was resolved"),
      },
      _ => panic!("Member should have been Relation!"),
   }
}
