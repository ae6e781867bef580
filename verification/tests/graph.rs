//! End-to-end graph assembly scenarios.

use osmgraph::element::{Element, Field, Real, Tags};
use osmgraph::error::GraphError;
use osmgraph::graph::{assemble_graph, plan_edges, OSMGraph};
use osmgraph::node::{get_nodes_from_ways, OSMNode};
use osmgraph::way::get_osm_ways;

fn r64(x: f64) -> Real {
    Real::new(x.to_bits())
}

fn node_elem(id: u64, lat: f64, lon: f64) -> Element {
    Element::Node {
        id: Field::Val(id),
        lat: Field::Val(r64(lat)),
        lon: Field::Val(r64(lon)),
    }
}

fn road_elem(id: u64, nodes: &[u64], highway: &str) -> Element {
    Element::Way {
        id: Field::Val(id),
        nodes: Field::Val(nodes.to_vec()),
        tags: Some(Tags { pairs: vec![("highway".to_string(), highway.to_string())] }),
    }
}

fn plain_way_elem(id: u64, nodes: &[u64]) -> Element {
    Element::Way { id: Field::Val(id), nodes: Field::Val(nodes.to_vec()), tags: None }
}

/// Haversine great-circle distance in meters, inputs in degrees. The
/// verified core cannot hold 64-bit IEEE-754 arithmetic, so the distance
/// of each planned edge is computed beside it and handed to assembly.
fn haversine(lat1: f64, lon1: f64, lat2: f64, lon2: f64) -> f64 {
    let (la1, lo1) = (lat1.to_radians(), lon1.to_radians());
    let (la2, lo2) = (lat2.to_radians(), lon2.to_radians());
    let dlat = la2 - la1;
    let dlon = lo2 - lo1;
    let a = (dlat / 2.0).sin().powi(2) + la1.cos() * la2.cos() * (dlon / 2.0).sin().powi(2);
    6371009.0 * 2.0 * a.sqrt().asin()
}

fn node_dist(n1: &OSMNode, n2: &OSMNode) -> f64 {
    haversine(
        f64::from_bits(n1.lat.bits),
        f64::from_bits(n1.lon.bits),
        f64::from_bits(n2.lat.bits),
        f64::from_bits(n2.lon.bits),
    )
}

fn build_graph(elements: &Vec<Element>) -> Result<OSMGraph, GraphError> {
    let ways = get_osm_ways(elements)?;
    let nodes = get_nodes_from_ways(elements, &ways)?;
    let plan = plan_edges(&ways, &nodes)?;
    let dists: Vec<Real> = plan.iter().map(|pe| r64(node_dist(&pe.n1, &pe.n2))).collect();
    Ok(assemble_graph(&nodes, &plan, &dists))
}

#[test]
fn scenario_three_nodes_one_way() {
    let elements = vec![
        node_elem(1, 0.0, 0.0),
        node_elem(2, 0.0, 1.0),
        node_elem(3, 1.0, 1.0),
        road_elem(10, &[1, 2, 3], "residential"),
    ];
    let g = build_graph(&elements).expect("assembly should succeed");
    assert_eq!(g.node_count(), 3);
    assert_eq!(g.edge_count(), 2);

    let edges = g.raw_edges();
    assert_eq!(edges[0].weight.nodes(), [1, 2]);
    assert_eq!(edges[1].weight.nodes(), [2, 3]);
    assert_eq!(edges[0].weight.highway_type(), "residential");
    assert_eq!(edges[1].weight.highway_type(), "residential");

    let d12 = f64::from_bits(edges[0].weight.dist().bits);
    let d23 = f64::from_bits(edges[1].weight.dist().bits);
    assert!(d12 > 0.0 && d23 > 0.0);
    assert!((d12 - haversine(0.0, 0.0, 0.0, 1.0)).abs() < 0.1);
    assert!((d23 - haversine(0.0, 1.0, 1.0, 1.0)).abs() < 0.1);
}

#[test]
fn scenario_way_without_highway_tag_is_absent() {
    let elements = vec![
        node_elem(1, 0.0, 0.0),
        node_elem(2, 0.0, 1.0),
        node_elem(3, 5.0, 5.0),
        road_elem(10, &[1, 2], "primary"),
        // node 3 is referenced only by the untagged way
        plain_way_elem(11, &[2, 3]),
    ];
    let ways = get_osm_ways(&elements).expect("way extraction should succeed");
    assert_eq!(ways.len(), 1);
    assert_eq!(ways[0].id, 10);

    let g = build_graph(&elements).expect("assembly should succeed");
    assert_eq!(g.node_count(), 2);
    assert_eq!(g.edge_count(), 1);
    assert!(g.raw_nodes().iter().all(|n| n.weight.id() != 3));
}

#[test]
fn scenario_unresolvable_node_id_is_integrity_error() {
    let elements = vec![
        node_elem(1, 0.0, 0.0),
        road_elem(10, &[1, 999], "residential"),
    ];
    let err = build_graph(&elements).expect_err("a dangling node id must fail assembly");
    assert_eq!(err, GraphError::GraphIntegrity { node_id: 999 });
}

#[test]
fn scenario_quarter_circumference_edge() {
    // two points 90 degrees apart on the equator
    let elements = vec![
        node_elem(1, 0.0, 0.0),
        node_elem(2, 0.0, 90.0),
        road_elem(10, &[1, 2], "trunk"),
    ];
    let g = build_graph(&elements).expect("assembly should succeed");
    assert_eq!(g.edge_count(), 1);
    let d = f64::from_bits(g.raw_edges()[0].weight.dist().bits);
    assert!((d - 10007557.0).abs() < 2.0);
}

#[test]
fn parallel_edges_are_kept() {
    let elements = vec![
        node_elem(1, 0.0, 0.0),
        node_elem(2, 0.0, 1.0),
        road_elem(10, &[1, 2], "residential"),
        road_elem(11, &[1, 2], "service"),
    ];
    let g = build_graph(&elements).expect("assembly should succeed");
    assert_eq!(g.node_count(), 2);
    // multigraph semantics: the two ways give two parallel edges
    assert_eq!(g.edge_count(), 2);
    assert_eq!(g.raw_edges()[0].weight.highway_type(), "residential");
    assert_eq!(g.raw_edges()[1].weight.highway_type(), "service");
}

#[test]
fn single_node_way_gives_isolated_vertex() {
    let elements = vec![node_elem(1, 0.0, 0.0), road_elem(10, &[1], "path")];
    let g = build_graph(&elements).expect("assembly should succeed");
    assert_eq!(g.node_count(), 1);
    assert_eq!(g.edge_count(), 0);
}

#[test]
fn duplicate_node_ids_resolve_to_last_insert() {
    let elements = vec![
        node_elem(1, 0.0, 0.0),
        node_elem(1, 10.0, 10.0),
        node_elem(2, 0.0, 1.0),
        road_elem(10, &[1, 2], "residential"),
    ];
    let ways = get_osm_ways(&elements).expect("way extraction should succeed");
    let nodes = get_nodes_from_ways(&elements, &ways).expect("resolution should succeed");
    // both records carrying id 1 are referenced, so both survive resolution
    assert_eq!(nodes.len(), 3);
    let plan = plan_edges(&ways, &nodes).expect("planning should succeed");
    assert_eq!(plan.len(), 1);
    // the id-to-index mapping keeps the last insert for a repeated id
    assert_eq!(plan[0].index1, 1);
    assert_eq!(f64::from_bits(plan[0].n1.lat().bits), 10.0);
}

#[test]
fn graph_from_elements_is_nonempty() {
    let elements = vec![
        node_elem(41, 40.8, -76.86),
        node_elem(42, 40.81, -76.87),
        node_elem(43, 40.82, -76.88),
        road_elem(400, &[41, 42], "residential"),
        road_elem(401, &[42, 43], "secondary"),
    ];
    let g = build_graph(&elements).expect("assembly should succeed");
    assert!(g.node_count() > 0);
    assert!(g.edge_count() > 0);
    assert!(g.raw_nodes()[0].weight.id() != 0);
    assert!(g.raw_edges()[0].weight.highway_type() != "");
}
