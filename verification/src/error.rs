//! The fatal failures of extraction and assembly.

use vstd::prelude::*;

verus! {

/// The structurally significant fields of the two record kinds.
#[derive(Clone, Copy, PartialEq, Eq, Structural, Debug)]
pub enum RecordField {
    NodeId,
    NodeLat,
    NodeLon,
    WayId,
    WayNodes,
}

/// A fatal failure. Benign omissions (a point record missing a field, a
/// polyline record without a road tag) are not errors and never reach this
/// type: they are filtered silently.
#[derive(Clone, Copy, PartialEq, Eq, Structural, Debug)]
pub enum GraphError {
    /// A structurally required field was absent on an otherwise retained
    /// record.
    MissingField { field: RecordField },
    /// A field was present but its value had the wrong shape for its
    /// expected type.
    MalformedValue { field: RecordField },
    /// During assembly, a way referenced a node id absent from the resolved
    /// node set.
    GraphIntegrity { node_id: u64 },
}

} // verus!
