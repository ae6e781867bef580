//! A verified core for turning a raw map extract (point and polyline
//! records) into a weighted, undirected road graph.
//!
//! The pipeline is a single forward pass: raw elements are classified and
//! extracted into typed nodes and ways, the node set is narrowed to the
//! nodes that some retained way references, and the result is assembled
//! into a dense-indexed multigraph with one edge per consecutive node pair
//! of each way.
//!
//! Geographic coordinates and distances are 64-bit IEEE-754 values; the
//! core stores them by bit pattern ([`element::Real`]) and never interprets
//! them numerically. The great-circle distance of each edge is computed by
//! the caller between planning ([`graph::plan_edges`]) and assembly
//! ([`graph::assemble_graph`]).

pub mod edge;
pub mod element;
pub mod error;
pub mod extract;
pub mod graph;
pub mod node;
pub mod way;
