//! Extraction of nodes and ways from raw elements.

use osmgraph::element::{Element, Field, Real, Tags};
use osmgraph::error::{GraphError, RecordField};
use osmgraph::node::{get_osm_nodes, OSMNode};
use osmgraph::way::get_osm_ways;

fn r64(x: f64) -> Real {
    Real::new(x.to_bits())
}

fn node_elem(id: u64, lat: f64, lon: f64) -> Element {
    Element::Node {
        id: Field::Val(id),
        lat: Field::Val(r64(lat)),
        lon: Field::Val(r64(lon)),
    }
}

fn tags(pairs: &[(&str, &str)]) -> Tags {
    let mut t = Tags::new();
    for (k, v) in pairs {
        t.push(k.to_string(), v.to_string());
    }
    t
}

fn way_elem(id: u64, nodes: &[u64], t: Option<Tags>) -> Element {
    Element::Way {
        id: Field::Val(id),
        nodes: Field::Val(nodes.to_vec()),
        tags: t,
    }
}

#[test]
fn node_fields_are_copied_exactly() {
    let elements = vec![
        node_elem(7, 52.5200, 13.4050),
        node_elem(8, -33.8688, 151.2093),
    ];
    let nodes = get_osm_nodes(&elements).expect("extraction should succeed");
    assert_eq!(nodes.len(), 2);
    assert_eq!(nodes[0], OSMNode::new(7, r64(52.5200), r64(13.4050)));
    assert_eq!(nodes[1], OSMNode::new(8, r64(-33.8688), r64(151.2093)));
    // bit-exact: no rounding of the source values
    assert_eq!(nodes[0].id(), 7);
    assert_eq!(f64::from_bits(nodes[0].lat().bits), 52.5200);
    assert_eq!(f64::from_bits(nodes[1].lon().bits), 151.2093);
}

#[test]
fn node_missing_field_is_silently_dropped() {
    let elements = vec![
        Element::Node { id: Field::Absent, lat: Field::Val(r64(1.0)), lon: Field::Val(r64(2.0)) },
        Element::Node { id: Field::Val(5), lat: Field::Absent, lon: Field::Val(r64(2.0)) },
        Element::Node { id: Field::Val(6), lat: Field::Val(r64(1.0)), lon: Field::Absent },
        node_elem(9, 1.0, 2.0),
    ];
    let nodes = get_osm_nodes(&elements).expect("missing fields are not an error");
    assert_eq!(nodes.len(), 1);
    assert_eq!(nodes[0].id, 9);
}

#[test]
fn node_malformed_field_is_fatal() {
    let elements = vec![
        node_elem(1, 0.0, 0.0),
        Element::Node { id: Field::Val(2), lat: Field::Bad, lon: Field::Val(r64(2.0)) },
    ];
    let err = get_osm_nodes(&elements).expect_err("a malformed value must fail");
    assert_eq!(err, GraphError::MalformedValue { field: RecordField::NodeLat });
}

#[test]
fn node_malformed_id_is_fatal() {
    let elements = vec![Element::Node {
        id: Field::Bad,
        lat: Field::Val(r64(0.0)),
        lon: Field::Val(r64(0.0)),
    }];
    let err = get_osm_nodes(&elements).expect_err("a malformed id must fail");
    assert_eq!(err, GraphError::MalformedValue { field: RecordField::NodeId });
}

#[test]
fn node_malformed_longitude_is_fatal() {
    let elements = vec![Element::Node {
        id: Field::Val(3),
        lat: Field::Val(r64(1.0)),
        lon: Field::Bad,
    }];
    let err = get_osm_nodes(&elements).expect_err("a malformed longitude must fail");
    assert_eq!(err, GraphError::MalformedValue { field: RecordField::NodeLon });
}

#[test]
fn tagged_way_malformed_id_is_fatal() {
    let elements = vec![Element::Way {
        id: Field::Bad,
        nodes: Field::Val(vec![1, 2]),
        tags: Some(tags(&[("highway", "service")])),
    }];
    let err = get_osm_ways(&elements).expect_err("a malformed way id must fail");
    assert_eq!(err, GraphError::MalformedValue { field: RecordField::WayId });
}

#[test]
fn way_extractor_ignores_nodes_and_untagged_ways() {
    let elements = vec![
        node_elem(1, 0.0, 0.0),
        way_elem(10, &[1, 2], None),
        way_elem(11, &[1, 2], Some(tags(&[("waterway", "river")]))),
        way_elem(12, &[1, 2], Some(tags(&[("highway", "residential")]))),
    ];
    let ways = get_osm_ways(&elements).expect("extraction should succeed");
    assert_eq!(ways.len(), 1);
    assert_eq!(ways[0].id, 12);
    assert_eq!(ways[0].highway_type(), "residential");
    assert_eq!(ways[0].nodes(), &vec![1, 2]);
    assert_eq!(ways[0].dists().len(), 0);
}

#[test]
fn way_highway_type_is_verbatim() {
    let elements = vec![way_elem(
        3,
        &[4, 5, 6],
        Some(tags(&[("name", "Main St"), ("highway", "Track_7 grade")])),
    )];
    let ways = get_osm_ways(&elements).expect("extraction should succeed");
    assert_eq!(ways.len(), 1);
    assert_eq!(ways[0].highway_type(), "Track_7 grade");
}

#[test]
fn tagged_way_missing_id_is_fatal() {
    let elements = vec![Element::Way {
        id: Field::Absent,
        nodes: Field::Val(vec![1, 2]),
        tags: Some(tags(&[("highway", "service")])),
    }];
    let err = get_osm_ways(&elements).expect_err("a road way without id must fail");
    assert_eq!(err, GraphError::MissingField { field: RecordField::WayId });
}

#[test]
fn tagged_way_missing_nodes_is_fatal() {
    let elements = vec![Element::Way {
        id: Field::Val(20),
        nodes: Field::Absent,
        tags: Some(tags(&[("highway", "service")])),
    }];
    let err = get_osm_ways(&elements).expect_err("a road way without nodes must fail");
    assert_eq!(err, GraphError::MissingField { field: RecordField::WayNodes });
}

#[test]
fn tagged_way_malformed_nodes_is_fatal() {
    let elements = vec![Element::Way {
        id: Field::Val(20),
        nodes: Field::Bad,
        tags: Some(tags(&[("highway", "service")])),
    }];
    let err = get_osm_ways(&elements).expect_err("a malformed node list must fail");
    assert_eq!(err, GraphError::MalformedValue { field: RecordField::WayNodes });
}

#[test]
fn untagged_way_missing_id_is_not_an_error() {
    // the way is dropped before its structure is examined
    let elements = vec![Element::Way { id: Field::Absent, nodes: Field::Bad, tags: None }];
    let ways = get_osm_ways(&elements).expect("an untagged way is only skipped");
    assert_eq!(ways.len(), 0);
}

#[test]
fn extraction_keeps_source_order() {
    let elements = vec![
        node_elem(3, 1.0, 1.0),
        way_elem(30, &[3, 1], Some(tags(&[("highway", "primary")]))),
        node_elem(1, 2.0, 2.0),
        way_elem(10, &[1, 3], Some(tags(&[("highway", "service")]))),
        node_elem(2, 3.0, 3.0),
    ];
    let nodes = get_osm_nodes(&elements).expect("extraction should succeed");
    let ways = get_osm_ways(&elements).expect("extraction should succeed");
    assert_eq!(nodes.iter().map(|n| n.id).collect::<Vec<u64>>(), vec![3, 1, 2]);
    assert_eq!(ways.iter().map(|w| w.id).collect::<Vec<u64>>(), vec![30, 10]);
}
