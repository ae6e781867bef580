//! The edge type of the assembled graph: one edge per consecutive node
//! pair of a retained way.

use vstd::prelude::*;

use crate::element::Real;

verus! {

/// One undirected edge of the road graph: the two endpoint node ids (in
/// way order, not internal indices), the great-circle distance between
/// them in meters, and the road category of the way it came from.
#[derive(Clone, PartialEq, Debug)]
pub struct OSMEdge {
    pub nodes: [u64; 2],
    pub dist: Real,
    pub highway_type: String,
}

/// The mathematical shape of an `OSMEdge`.
pub struct EdgeView {
    pub n1: u64,
    pub n2: u64,
    pub dist: Real,
    pub highway_type: Seq<char>,
}

impl View for OSMEdge {
    type V = EdgeView;

    open spec fn view(&self) -> EdgeView {
        EdgeView {
            n1: self.nodes@[0],
            n2: self.nodes@[1],
            dist: self.dist,
            highway_type: self.highway_type@,
        }
    }
}

impl OSMEdge {
    pub fn new(nodes: [u64; 2], dist: Real, highway_type: String) -> (r: OSMEdge)
        ensures
            r@ == (EdgeView { n1: nodes@[0], n2: nodes@[1], dist, highway_type: highway_type@ }),
    {
        OSMEdge { nodes, dist, highway_type }
    }

    /// Get the two endpoint node ids, in way order.
    pub fn nodes(&self) -> (r: [u64; 2])
        ensures
            r == self.nodes,
    {
        self.nodes
    }

    /// Get the length of the edge in meters.
    pub fn dist(&self) -> (r: Real)
        ensures
            r == self.dist,
    {
        self.dist
    }

    /// Get the road category of the edge.
    pub fn highway_type(&self) -> (r: &str)
        ensures
            r@ == self@.highway_type,
    {
        self.highway_type.as_str()
    }
}

} // verus!
