//! Node-relevance filtering against the retained way set.

use osmgraph::element::{Element, Field, Real, Tags};
use osmgraph::node::{filter_unconnected_nodes, get_nodes_from_ways, get_osm_nodes, OSMNode};
use osmgraph::way::{get_osm_ways, OSMWay};

fn r64(x: f64) -> Real {
    Real::new(x.to_bits())
}

fn node(id: u64) -> OSMNode {
    OSMNode::new(id, r64(id as f64), r64(-(id as f64)))
}

fn road(id: u64, node_ids: &[u64]) -> OSMWay {
    OSMWay::new(id, node_ids.to_vec(), Vec::new(), "residential".to_string())
}

#[test]
fn only_referenced_nodes_survive() {
    let ways = vec![road(100, &[1, 3]), road(101, &[3, 5])];
    let nodes = vec![node(1), node(2), node(3), node(4), node(5)];
    let kept = filter_unconnected_nodes(&ways, nodes);
    assert_eq!(kept.iter().map(|n| n.id).collect::<Vec<u64>>(), vec![1, 3, 5]);
}

#[test]
fn empty_way_set_drops_every_node() {
    let ways: Vec<OSMWay> = Vec::new();
    let nodes = vec![node(1), node(2)];
    let kept = filter_unconnected_nodes(&ways, nodes);
    assert_eq!(kept.len(), 0);
}

#[test]
fn filtering_twice_changes_nothing() {
    let ways = vec![road(100, &[2, 4, 2]), road(101, &[9])];
    let nodes = vec![node(1), node(2), node(4), node(7)];
    let once = filter_unconnected_nodes(&ways, nodes);
    let twice = filter_unconnected_nodes(&ways, once.clone());
    assert_eq!(once, twice);
}

#[test]
fn nodes_from_ways_composes_extraction_and_filtering() {
    let elements = vec![
        Element::Node { id: Field::Val(1), lat: Field::Val(r64(0.0)), lon: Field::Val(r64(0.0)) },
        Element::Node { id: Field::Val(2), lat: Field::Val(r64(0.0)), lon: Field::Val(r64(1.0)) },
        Element::Node { id: Field::Val(3), lat: Field::Val(r64(1.0)), lon: Field::Val(r64(1.0)) },
        Element::Way {
            id: Field::Val(10),
            nodes: Field::Val(vec![1, 3]),
            tags: Some(Tags { pairs: vec![("highway".to_string(), "service".to_string())] }),
        },
    ];
    let ways = get_osm_ways(&elements).expect("way extraction should succeed");
    let all = get_osm_nodes(&elements).expect("node extraction should succeed");
    let relevant = get_nodes_from_ways(&elements, &ways).expect("resolution should succeed");
    assert_eq!(all.len(), 3);
    assert_eq!(relevant.iter().map(|n| n.id).collect::<Vec<u64>>(), vec![1, 3]);
}
