//! The node extractor and the node resolver: point records become typed
//! nodes, and the node set is narrowed to the nodes some retained way
//! references.

use vstd::prelude::*;

use std::collections::HashSet;

use crate::element::{Element, ElementView, Field, Real, views_of};
use crate::error::{GraphError, RecordField};
use crate::extract::{
    lemma_kept_elem_in_output, lemma_scan_err, lemma_scan_ok_is_kept, scan_elements, Extracted,
};
use crate::way::{ways_view, OSMWay, WayView};

verus! {

broadcast use vstd::std_specs::hash::group_hash_axioms;

/// A point of the road network: its id and its coordinates in degrees.
/// Immutable once constructed.
#[derive(Clone, Copy, PartialEq, Eq, Structural, Debug)]
pub struct OSMNode {
    pub id: u64,
    pub lat: Real,
    pub lon: Real,
}

impl OSMNode {
    pub fn new(id: u64, lat: Real, lon: Real) -> (r: OSMNode)
        ensures
            r == (OSMNode { id, lat, lon }),
    {
        OSMNode { id, lat, lon }
    }

    /// Get the node ID.
    pub fn id(&self) -> (r: u64)
        ensures
            r == self.id,
    {
        self.id
    }

    /// Get the node latitude, in degrees.
    pub fn lat(&self) -> (r: Real)
        ensures
            r == self.lat,
    {
        self.lat
    }

    /// Get the node longitude, in degrees.
    pub fn lon(&self) -> (r: Real)
        ensures
            r == self.lon,
    {
        self.lon
    }
}

/// A point record with all three fields present and well-typed.
pub open spec fn complete_node(e: ElementView) -> bool {
    match e {
        ElementView::Node { id: Field::Val(_), lat: Field::Val(_), lon: Field::Val(_) } => true,
        _ => false,
    }
}

/// The node a complete point record denotes, with the source values
/// unchanged.
pub open spec fn node_of(e: ElementView) -> OSMNode
    recommends
        complete_node(e),
{
    match e {
        ElementView::Node { id: Field::Val(id), lat: Field::Val(lat), lon: Field::Val(lon) } => (
        OSMNode { id, lat, lon }),
        _ => arbitrary(),
    }
}

/// Classification of one element by the node extractor: a polyline record
/// is skipped; a point record missing any field is silently dropped; a
/// point record with an ill-shaped field is fatal; a complete point record
/// is kept with its field values unchanged.
pub open spec fn node_step(e: ElementView) -> Extracted<OSMNode> {
    match e {
        ElementView::Way { .. } => Extracted::Skip,
        ElementView::Node { id, lat, lon } => match id {
            Field::Absent => Extracted::Skip,
            Field::Bad => Extracted::Fail(
                GraphError::MalformedValue { field: RecordField::NodeId },
            ),
            Field::Val(id) => match lat {
                Field::Absent => Extracted::Skip,
                Field::Bad => Extracted::Fail(
                    GraphError::MalformedValue { field: RecordField::NodeLat },
                ),
                Field::Val(lat) => match lon {
                    Field::Absent => Extracted::Skip,
                    Field::Bad => Extracted::Fail(
                        GraphError::MalformedValue { field: RecordField::NodeLon },
                    ),
                    Field::Val(lon) => Extracted::Keep(OSMNode { id, lat, lon }),
                },
            },
        },
    }
}

pub open spec fn node_step_fn() -> spec_fn(ElementView) -> Extracted<OSMNode> {
    |e: ElementView| node_step(e)
}

/// The node extraction pass over a whole element sequence.
pub open spec fn extract_nodes(elems: Seq<ElementView>) -> Result<Seq<OSMNode>, GraphError> {
    scan_elements(elems, node_step_fn())
}

/// Extract every complete point record as an `OSMNode`, in source order.
/// A point record missing id, latitude or longitude produces nothing; one
/// with an ill-shaped field aborts the extraction.
pub fn get_osm_nodes(elements: &Vec<Element>) -> (r: Result<Vec<OSMNode>, GraphError>)
    ensures
        match r {
            Ok(ns) => extract_nodes(views_of(elements@)) == Ok::<Seq<OSMNode>, GraphError>(ns@),
            Err(e) => extract_nodes(views_of(elements@)) == Err::<Seq<OSMNode>, GraphError>(e),
        },
{
    let ghost all = views_of(elements@);
    let mut out: Vec<OSMNode> = Vec::new();
    let mut i: usize = 0;
    proof {
        assert(all.take(0) =~= Seq::<ElementView>::empty());
    }
    while i < elements.len()
        invariant
            0 <= i <= elements@.len(),
            all == views_of(elements@),
            extract_nodes(all.take(i as int)) == Ok::<Seq<OSMNode>, GraphError>(out@),
        decreases elements@.len() - i,
    {
        proof {
            assert(all.take(i as int + 1).drop_last() =~= all.take(i as int));
            assert(all[i as int] == elements@[i as int]@);
        }
        let e = &elements[i];
        let kept: Option<OSMNode> = match e {
            Element::Way { .. } => None,
            Element::Node { id, lat, lon } => match id {
                Field::Absent => None,
                Field::Bad => {
                    let err = GraphError::MalformedValue { field: RecordField::NodeId };
                    proof {
                        lemma_scan_err(all, node_step_fn(), i as int, err);
                    }
                    return Err(err);
                },
                Field::Val(idv) => match lat {
                    Field::Absent => None,
                    Field::Bad => {
                        let err = GraphError::MalformedValue { field: RecordField::NodeLat };
                        proof {
                            lemma_scan_err(all, node_step_fn(), i as int, err);
                        }
                        return Err(err);
                    },
                    Field::Val(latv) => match lon {
                        Field::Absent => None,
                        Field::Bad => {
                            let err = GraphError::MalformedValue { field: RecordField::NodeLon };
                            proof {
                                lemma_scan_err(all, node_step_fn(), i as int, err);
                            }
                            return Err(err);
                        },
                        Field::Val(lonv) => Some(OSMNode { id: *idv, lat: *latv, lon: *lonv }),
                    },
                },
            },
        };
        match kept {
            Some(n) => {
                proof {
                    assert(node_step(all[i as int]) == Extracted::Keep(n));
                }
                out.push(n);
            },
            None => {
                proof {
                    assert(node_step(all[i as int]) == Extracted::<OSMNode>::Skip);
                }
            },
        }
        i += 1;
    }
    proof {
        assert(all.take(elements@.len() as int) =~= all);
    }
    Ok(out)
}

/// Extraction copies the three field values of every complete point record
/// into the output unchanged: no coercion, no rounding.
pub proof fn lemma_extracted_node_fields_exact(
    elems: Seq<ElementView>,
    out: Seq<OSMNode>,
    i: int,
)
    requires
        extract_nodes(elems) == Ok::<Seq<OSMNode>, GraphError>(out),
        0 <= i < elems.len(),
        complete_node(elems[i]),
    ensures
        out.contains(node_of(elems[i])),
{
    assert(node_step(elems[i]) == Extracted::Keep(node_of(elems[i])));
    lemma_scan_ok_is_kept(elems, node_step_fn(), out);
    lemma_kept_elem_in_output(elems, node_step_fn(), i, node_of(elems[i]));
}

/// The ids of the first `k` entries of one way's node list.
pub open spec fn ids_prefix(ns: Seq<u64>, k: int) -> Set<u64>
    decreases k,
{
    if k <= 0 {
        Set::empty()
    } else {
        ids_prefix(ns, k - 1).insert(ns[k - 1])
    }
}

/// Every node id referenced by any of the ways.
pub open spec fn way_node_ids(ways: Seq<WayView>) -> Set<u64>
    decreases ways.len(),
{
    if ways.len() == 0 {
        Set::empty()
    } else {
        way_node_ids(ways.drop_last()).union(
            ids_prefix(ways.last().nodes, ways.last().nodes.len() as int),
        )
    }
}

proof fn lemma_ids_prefix_membership(ns: Seq<u64>, k: int, x: u64)
    requires
        0 <= k <= ns.len(),
    ensures
        ids_prefix(ns, k).contains(x) <==> exists|j: int| 0 <= j < k && ns[j] == x,
    decreases k,
{
    if k > 0 {
        lemma_ids_prefix_membership(ns, k - 1, x);
        if x == ns[k - 1] {
            assert(ids_prefix(ns, k).contains(x));
            assert(0 <= k - 1 < k && ns[k - 1] == x);
        } else {
            assert(ids_prefix(ns, k).contains(x) <==> ids_prefix(ns, k - 1).contains(x));
            if exists|j: int| 0 <= j < k && ns[j] == x {
                let j = choose|j: int| 0 <= j < k && ns[j] == x;
                assert(0 <= j < k - 1 && ns[j] == x);
            }
        }
    }
}

/// An id is in the referenced set exactly when the node list of some way
/// holds it.
pub proof fn lemma_way_node_ids_membership(ways: Seq<WayView>, x: u64)
    ensures
        way_node_ids(ways).contains(x) <==> exists|wi: int, j: int|
            0 <= wi < ways.len() && 0 <= j < ways[wi].nodes.len() && #[trigger] ways[wi].nodes[j]
                == x,
    decreases ways.len(),
{
    if ways.len() > 0 {
        lemma_way_node_ids_membership(ways.drop_last(), x);
        let w = ways.last();
        lemma_ids_prefix_membership(w.nodes, w.nodes.len() as int, x);
        if way_node_ids(ways).contains(x) {
            if way_node_ids(ways.drop_last()).contains(x) {
                let (wi, j) = choose|wi: int, j: int|
                    0 <= wi < ways.drop_last().len() && 0 <= j < ways.drop_last()[wi].nodes.len()
                        && #[trigger] ways.drop_last()[wi].nodes[j] == x;
                assert(ways[wi] == ways.drop_last()[wi]);
                assert(0 <= wi < ways.len() && 0 <= j < ways[wi].nodes.len() && ways[wi].nodes[j]
                    == x);
            } else {
                let j = choose|j: int| 0 <= j < w.nodes.len() && w.nodes[j] == x;
                assert(ways[ways.len() - 1] == w);
                assert(0 <= ways.len() - 1 < ways.len() && 0 <= j < ways[ways.len() - 1].nodes.len()
                    && ways[ways.len() - 1].nodes[j] == x);
            }
        }
        if exists|wi: int, j: int|
            0 <= wi < ways.len() && 0 <= j < ways[wi].nodes.len() && #[trigger] ways[wi].nodes[j]
                == x {
            let (wi, j) = choose|wi: int, j: int|
                0 <= wi < ways.len() && 0 <= j < ways[wi].nodes.len() && #[trigger] ways[
                    wi
                ].nodes[j] == x;
            if wi < ways.len() - 1 {
                assert(ways.drop_last()[wi] == ways[wi]);
                assert(0 <= wi < ways.drop_last().len() && 0 <= j < ways.drop_last()[
                    wi
                ].nodes.len() && ways.drop_last()[wi].nodes[j] == x);
                assert(way_node_ids(ways.drop_last()).contains(x));
            } else {
                assert(ids_prefix(w.nodes, w.nodes.len() as int).contains(x));
            }
            assert(way_node_ids(ways).contains(x));
        }
    }
}

/// The nodes whose id is in `keep`, in their original order.
pub open spec fn resolve_nodes(nodes: Seq<OSMNode>, keep: Set<u64>) -> Seq<OSMNode>
    decreases nodes.len(),
{
    if nodes.len() == 0 {
        Seq::empty()
    } else {
        let pre = resolve_nodes(nodes.drop_last(), keep);
        if keep.contains(nodes.last().id) {
            pre.push(nodes.last())
        } else {
            pre
        }
    }
}

fn collect_way_node_ids(ways: &Vec<OSMWay>) -> (ids: HashSet<u64>)
    ensures
        ids@ == way_node_ids(ways_view(ways@)),
{
    let ghost wv = ways_view(ways@);
    let mut ids: HashSet<u64> = HashSet::new();
    let mut i: usize = 0;
    proof {
        assert(wv.take(0) =~= Seq::<WayView>::empty());
    }
    while i < ways.len()
        invariant
            0 <= i <= ways@.len(),
            wv == ways_view(ways@),
            ids@ == way_node_ids(wv.take(i as int)),
        decreases ways@.len() - i,
    {
        let w = &ways[i];
        proof {
            assert(wv[i as int] == ways@[i as int]@);
        }
        let n = w.nodes.len();
        let mut j: usize = 0;
        proof {
            assert(ids@ =~= way_node_ids(wv.take(i as int)).union(ids_prefix(w.nodes@, 0)));
        }
        while j < n
            invariant
                0 <= j <= n,
                n == w.nodes@.len(),
                w == &ways[i as int],
                0 <= i < ways@.len(),
                wv == ways_view(ways@),
                ids@ == way_node_ids(wv.take(i as int)).union(ids_prefix(w.nodes@, j as int)),
            decreases n - j,
        {
            let id = w.nodes[j];
            ids.insert(id);
            proof {
                assert(ids@ =~= way_node_ids(wv.take(i as int)).union(
                    ids_prefix(w.nodes@, j as int + 1),
                ));
            }
            j += 1;
        }
        proof {
            assert(wv.take(i as int + 1).drop_last() =~= wv.take(i as int));
            assert(wv.take(i as int + 1).last() == wv[i as int]);
            assert(ids@ =~= way_node_ids(wv.take(i as int + 1)));
        }
        i += 1;
    }
    proof {
        assert(wv.take(ways@.len() as int) =~= wv);
    }
    ids
}

/// Narrow `nodes` to the nodes that at least one of `ways` references,
/// keeping their order. Membership is tested against a hash set of all
/// referenced ids, built in one pass over the ways.
pub fn filter_unconnected_nodes(ways: &Vec<OSMWay>, nodes: Vec<OSMNode>) -> (r: Vec<OSMNode>)
    ensures
        r@ == resolve_nodes(nodes@, way_node_ids(ways_view(ways@))),
{
    let ids = collect_way_node_ids(ways);
    let ghost keep = way_node_ids(ways_view(ways@));
    let mut out: Vec<OSMNode> = Vec::new();
    let mut k: usize = 0;
    proof {
        assert(nodes@.take(0) =~= Seq::<OSMNode>::empty());
    }
    while k < nodes.len()
        invariant
            0 <= k <= nodes@.len(),
            ids@ == keep,
            out@ == resolve_nodes(nodes@.take(k as int), keep),
        decreases nodes@.len() - k,
    {
        let n = nodes[k];
        proof {
            assert(nodes@.take(k as int + 1).drop_last() =~= nodes@.take(k as int));
            assert(nodes@.take(k as int + 1).last() == nodes@[k as int]);
        }
        if ids.contains(&n.id) {
            out.push(n);
        }
        k += 1;
    }
    proof {
        assert(nodes@.take(nodes@.len() as int) =~= nodes@);
    }
    out
}

/// Extract the nodes of `elements` and keep exactly those that lie on one
/// of `ways`.
pub fn get_nodes_from_ways(elements: &Vec<Element>, ways: &Vec<OSMWay>) -> (r: Result<
    Vec<OSMNode>,
    GraphError,
>)
    ensures
        match r {
            Ok(ns) => extract_nodes(views_of(elements@)) matches Ok(all_nodes) && ns@
                == resolve_nodes(all_nodes, way_node_ids(ways_view(ways@))),
            Err(e) => extract_nodes(views_of(elements@)) == Err::<Seq<OSMNode>, GraphError>(e),
        },
{
    let nodes = match get_osm_nodes(elements) {
        Ok(ns) => ns,
        Err(e) => {
            return Err(e);
        },
    };
    Ok(filter_unconnected_nodes(ways, nodes))
}

/// The id-to-index mapping after inserting `nodes` in order: each id maps
/// to the position of the last node carrying it.
pub open spec fn node_index_map(nodes: Seq<OSMNode>) -> Map<u64, usize>
    decreases nodes.len(),
{
    if nodes.len() == 0 {
        Map::empty()
    } else {
        node_index_map(nodes.drop_last()).insert(nodes.last().id, (nodes.len() - 1) as usize)
    }
}

/// The mapping is sound and complete for `nodes`: every mapped index is in
/// range and resolves to a node carrying the mapped id, and every node's
/// id is mapped.
pub proof fn lemma_node_index_map_sound(nodes: Seq<OSMNode>)
    requires
        nodes.len() <= usize::MAX,
    ensures
        forall|id: u64|
            #[trigger] node_index_map(nodes).dom().contains(id) ==> {
                &&& (node_index_map(nodes)[id] as int) < nodes.len()
                &&& nodes[node_index_map(nodes)[id] as int].id == id
            },
        forall|i: int| 0 <= i < nodes.len() ==> node_index_map(nodes).dom().contains(
            #[trigger] nodes[i].id,
        ),
    decreases nodes.len(),
{
    if nodes.len() > 0 {
        lemma_node_index_map_sound(nodes.drop_last());
        let m = node_index_map(nodes);
        let mp = node_index_map(nodes.drop_last());
        assert forall|id: u64| #[trigger] m.dom().contains(id) implies {
            &&& (m[id] as int) < nodes.len()
            &&& nodes[m[id] as int].id == id
        } by {
            if id == nodes.last().id {
                assert(m[id] == (nodes.len() - 1) as usize);
            } else {
                assert(mp.dom().contains(id));
                assert(nodes[mp[id] as int] == nodes.drop_last()[mp[id] as int]);
            }
        }
        assert forall|i: int| 0 <= i < nodes.len() implies m.dom().contains(
            #[trigger] nodes[i].id,
        ) by {
            if i < nodes.len() - 1 {
                assert(nodes[i] == nodes.drop_last()[i]);
                assert(mp.dom().contains(nodes.drop_last()[i].id));
            }
        }
    }
}

/// Resolving nodes against the same way set twice yields the same node
/// set: the relevance filter is idempotent.
pub proof fn lemma_resolve_nodes_idempotent(nodes: Seq<OSMNode>, keep: Set<u64>)
    ensures
        resolve_nodes(resolve_nodes(nodes, keep), keep) == resolve_nodes(nodes, keep),
    decreases nodes.len(),
{
    if nodes.len() == 0 {
    } else {
        lemma_resolve_nodes_idempotent(nodes.drop_last(), keep);
        let pre = resolve_nodes(nodes.drop_last(), keep);
        let whole = resolve_nodes(nodes, keep);
        if keep.contains(nodes.last().id) {
            assert(whole == pre.push(nodes.last()));
            assert(whole.drop_last() =~= pre);
            assert(whole.last() == nodes.last());
        } else {
            assert(whole == pre);
        }
    }
}

} // verus!
