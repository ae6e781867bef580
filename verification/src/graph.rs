//! The graph assembler: a dense id-to-index mapping over the resolved
//! nodes, one planned edge per consecutive pair of each way, and the
//! assembly of both into an undirected petgraph multigraph.
//!
//! Assembly is split around the one step the verified core cannot perform:
//! the great-circle distance of a planned edge is a 64-bit IEEE-754
//! computation, so [`plan_edges`] first resolves every pair, the caller
//! computes one distance per planned edge, and [`assemble_graph`] then
//! builds the graph with those distances attached.

use vstd::prelude::*;

use std::collections::HashMap;

use crate::edge::{EdgeView, OSMEdge};
use crate::element::Real;
use crate::error::GraphError;
use crate::node::{node_index_map, OSMNode};
use crate::way::{ways_view, OSMWay, WayView};

verus! {

broadcast use vstd::std_specs::hash::group_hash_axioms;

/// The assembled road graph: an undirected petgraph over `OSMNode`
/// vertices and `OSMEdge` weights, with dense indices assigned at
/// insertion time.
pub type OSMGraph = petgraph::graph::UnGraph<OSMNode, OSMEdge>;

/// Declares petgraph's `Graph` so it can stand in signatures; its contents
/// are reachable only through the two names below.
#[verifier::external_type_specification]
#[verifier::external_body]
#[verifier::reject_recursive_types(N)]
#[verifier::reject_recursive_types(E)]
#[verifier::reject_recursive_types(Ty)]
#[verifier::reject_recursive_types(Ix)]
pub struct ExGraph<N, E, Ty, Ix>(petgraph::graph::Graph<N, E, Ty, Ix>);

/// Declares petgraph's `Undirected` edge-type marker.
#[verifier::external_type_specification]
#[verifier::external_body]
pub struct ExUndirected(petgraph::Undirected);

/// The node weights of a graph, in insertion order; the internal index of
/// a node is its position in this sequence.
pub uninterp spec fn graph_nodes(g: OSMGraph) -> Seq<OSMNode>;

/// The edges of a graph, in insertion order: the two endpoint indices (in
/// the order they were given) and the edge weight.
pub uninterp spec fn graph_edges(g: OSMGraph) -> Seq<(usize, usize, EdgeView)>;

/// Relies on petgraph's `Graph::with_capacity`: a new graph with no nodes
/// and no edges, with space reserved for the given counts.
#[verifier::external_body]
fn graph_with_capacity(nodes: usize, edges: usize) -> (g: OSMGraph)
    ensures
        graph_nodes(g) == Seq::<OSMNode>::empty(),
        graph_edges(g) == Seq::<(usize, usize, EdgeView)>::empty(),
{
    petgraph::graph::UnGraph::with_capacity(nodes, edges)
}

/// Relies on petgraph's `Graph::add_node`: appends one node weight and
/// returns its index; indices are dense and assigned in insertion order.
/// The call panics at the index type's limit, which the bound rules out.
#[verifier::external_body]
fn graph_add_node(g: &mut OSMGraph, n: OSMNode) -> (i: usize)
    requires
        graph_nodes(*old(g)).len() < 0xffff_ffff,
    ensures
        graph_nodes(*final(g)) == graph_nodes(*old(g)).push(n),
        graph_edges(*final(g)) == graph_edges(*old(g)),
        i == graph_nodes(*old(g)).len(),
{
    g.add_node(n).index()
}

/// Relies on petgraph's `Graph::add_edge`: appends one edge between two
/// existing nodes, keeping the endpoints in argument order. The call
/// panics on a missing endpoint or at the index type's limit, which the
/// bounds rule out.
#[verifier::external_body]
fn graph_add_edge(g: &mut OSMGraph, a: usize, b: usize, e: OSMEdge)
    requires
        a < graph_nodes(*old(g)).len(),
        b < graph_nodes(*old(g)).len(),
        graph_nodes(*old(g)).len() < 0xffff_ffff,
        graph_edges(*old(g)).len() < 0xffff_ffff,
    ensures
        graph_nodes(*final(g)) == graph_nodes(*old(g)),
        graph_edges(*final(g)) == graph_edges(*old(g)).push((a, b, e@)),
{
    g.add_edge(
        petgraph::graph::NodeIndex::new(a),
        petgraph::graph::NodeIndex::new(b),
        e,
    );
}

/// One planned edge: the resolved endpoint indices and node values of one
/// consecutive pair of a way, and the way's road category.
#[derive(Clone, Debug)]
pub struct PlannedEdge {
    pub index1: usize,
    pub index2: usize,
    pub n1: OSMNode,
    pub n2: OSMNode,
    pub highway_type: String,
}

/// The mathematical shape of a `PlannedEdge`.
pub struct PlannedEdgeView {
    pub index1: usize,
    pub index2: usize,
    pub n1: OSMNode,
    pub n2: OSMNode,
    pub highway_type: Seq<char>,
}

impl View for PlannedEdge {
    type V = PlannedEdgeView;

    open spec fn view(&self) -> PlannedEdgeView {
        PlannedEdgeView {
            index1: self.index1,
            index2: self.index2,
            n1: self.n1,
            n2: self.n2,
            highway_type: self.highway_type@,
        }
    }
}

/// The views of a sequence of planned edges.
pub open spec fn plan_view(plan: Seq<PlannedEdge>) -> Seq<PlannedEdgeView> {
    plan.map_values(|pe: PlannedEdge| pe@)
}

/// A planned edge whose indices and node values agree with the resolved
/// node sequence.
pub open spec fn valid_planned(pe: PlannedEdgeView, nodes: Seq<OSMNode>) -> bool {
    &&& (pe.index1 as int) < nodes.len()
    &&& (pe.index2 as int) < nodes.len()
    &&& pe.n1 == nodes[pe.index1 as int]
    &&& pe.n2 == nodes[pe.index2 as int]
}

/// The planned edge of pair `i` of way `w`, or the integrity error naming
/// the first endpoint id that the resolved node set lacks.
pub open spec fn planned_edge_at(w: WayView, nodes: Seq<OSMNode>, i: int) -> Result<
    PlannedEdgeView,
    GraphError,
> {
    let m = node_index_map(nodes);
    let a = w.nodes[i];
    let b = w.nodes[i + 1];
    if !m.dom().contains(a) {
        Err(GraphError::GraphIntegrity { node_id: a })
    } else if !m.dom().contains(b) {
        Err(GraphError::GraphIntegrity { node_id: b })
    } else {
        Ok(
            PlannedEdgeView {
                index1: m[a],
                index2: m[b],
                n1: nodes[m[a] as int],
                n2: nodes[m[b] as int],
                highway_type: w.highway_type,
            },
        )
    }
}

/// The planned edges of the first `k` pairs of way `w`, in pair order.
pub open spec fn way_edges(w: WayView, nodes: Seq<OSMNode>, k: int) -> Result<
    Seq<PlannedEdgeView>,
    GraphError,
>
    decreases k,
{
    if k <= 0 {
        Ok(Seq::empty())
    } else {
        match way_edges(w, nodes, k - 1) {
            Err(e) => Err(e),
            Ok(pre) => match planned_edge_at(w, nodes, k - 1) {
                Err(e) => Err(e),
                Ok(pe) => Ok(pre.push(pe)),
            },
        }
    }
}

/// The number of consecutive pairs of a way: one fewer than its node
/// count, and none at all for an empty way.
pub open spec fn pair_count(w: WayView) -> int {
    if w.nodes.len() == 0 {
        0
    } else {
        w.nodes.len() - 1
    }
}

/// The planned edges of all of `ways` over the resolved `nodes`, in way
/// order and pair order within each way.
pub open spec fn plan_spec(ways: Seq<WayView>, nodes: Seq<OSMNode>) -> Result<
    Seq<PlannedEdgeView>,
    GraphError,
>
    decreases ways.len(),
{
    if ways.len() == 0 {
        Ok(Seq::empty())
    } else {
        match plan_spec(ways.drop_last(), nodes) {
            Err(e) => Err(e),
            Ok(pre) => match way_edges(ways.last(), nodes, pair_count(ways.last())) {
                Err(e) => Err(e),
                Ok(es) => Ok(pre + es),
            },
        }
    }
}

proof fn lemma_way_edges_err(
    w: WayView,
    nodes: Seq<OSMNode>,
    j: int,
    k: int,
    err: GraphError,
)
    requires
        0 <= j < k,
        way_edges(w, nodes, j) is Ok,
        planned_edge_at(w, nodes, j) == Err::<PlannedEdgeView, GraphError>(err),
    ensures
        way_edges(w, nodes, k) == Err::<Seq<PlannedEdgeView>, GraphError>(err),
    decreases k,
{
    if k - 1 > j {
        lemma_way_edges_err(w, nodes, j, k - 1, err);
    }
}

proof fn lemma_plan_spec_err(
    ways: Seq<WayView>,
    nodes: Seq<OSMNode>,
    wi: int,
    err: GraphError,
)
    requires
        0 <= wi < ways.len(),
        plan_spec(ways.take(wi), nodes) is Ok,
        way_edges(ways[wi], nodes, pair_count(ways[wi])) == Err::<
            Seq<PlannedEdgeView>,
            GraphError,
        >(err),
    ensures
        plan_spec(ways, nodes) == Err::<Seq<PlannedEdgeView>, GraphError>(err),
    decreases ways.len(),
{
    if wi == ways.len() - 1 {
        assert(ways.take(wi) =~= ways.drop_last());
    } else {
        assert(ways.drop_last().take(wi) =~= ways.take(wi));
        lemma_plan_spec_err(ways.drop_last(), nodes, wi, err);
    }
}

/// Resolve every consecutive pair of every way against the id-to-index
/// mapping of the resolved nodes. A pair endpoint whose id the mapping
/// lacks means the way set and the node set have diverged: planning stops
/// with an integrity error naming that id.
pub fn plan_edges(ways: &Vec<OSMWay>, nodes: &Vec<OSMNode>) -> (r: Result<
    Vec<PlannedEdge>,
    GraphError,
>)
    ensures
        match r {
            Ok(p) => {
                &&& plan_spec(ways_view(ways@), nodes@) == Ok::<
                    Seq<PlannedEdgeView>,
                    GraphError,
                >(plan_view(p@))
                &&& forall|i: int| 0 <= i < p@.len() ==> valid_planned(#[trigger] p@[i]@, nodes@)
            },
            Err(e) => plan_spec(ways_view(ways@), nodes@) == Err::<
                Seq<PlannedEdgeView>,
                GraphError,
            >(e),
        },
{
    let ghost wv = ways_view(ways@);
    let mut m: HashMap<u64, usize> = HashMap::new();
    let mut i: usize = 0;
    proof {
        assert(nodes@.take(0) =~= Seq::<OSMNode>::empty());
        assert(m@ =~= node_index_map(nodes@.take(0)));
    }
    while i < nodes.len()
        invariant
            0 <= i <= nodes@.len(),
            m@ == node_index_map(nodes@.take(i as int)),
        decreases nodes@.len() - i,
    {
        m.insert(nodes[i].id, i);
        proof {
            assert(nodes@.take(i as int + 1).drop_last() =~= nodes@.take(i as int));
            assert(nodes@.take(i as int + 1).last() == nodes@[i as int]);
        }
        i += 1;
    }
    proof {
        assert(nodes@.take(nodes@.len() as int) =~= nodes@);
        crate::node::lemma_node_index_map_sound(nodes@);
    }
    let mut plan: Vec<PlannedEdge> = Vec::new();
    let mut wi: usize = 0;
    proof {
        assert(wv.take(0) =~= Seq::<WayView>::empty());
        assert(plan_view(plan@) =~= Seq::<PlannedEdgeView>::empty());
    }
    while wi < ways.len()
        invariant
            0 <= wi <= ways@.len(),
            wv == ways_view(ways@),
            nodes@.len() <= usize::MAX,
            m@ == node_index_map(nodes@),
            plan_spec(wv.take(wi as int), nodes@) == Ok::<Seq<PlannedEdgeView>, GraphError>(
                plan_view(plan@),
            ),
            forall|t: int| 0 <= t < plan@.len() ==> valid_planned(#[trigger] plan@[t]@, nodes@),
        decreases ways@.len() - wi,
    {
        let w = &ways[wi];
        proof {
            assert(wv[wi as int] == ways@[wi as int]@);
        }
        let ghost prefix = plan_view(plan@);
        let n = w.nodes.len();
        if n > 0 {
            let mut j: usize = 0;
            while j < n - 1
                invariant
                    0 <= j <= n - 1,
                    n == w.nodes@.len(),
                    n > 0,
                    w == &ways[wi as int],
                    0 <= wi < ways@.len(),
                    wv == ways_view(ways@),
                    wv[wi as int] == ways@[wi as int]@,
                    nodes@.len() <= usize::MAX,
                    m@ == node_index_map(nodes@),
                    plan_spec(wv.take(wi as int), nodes@) == Ok::<
                        Seq<PlannedEdgeView>,
                        GraphError,
                    >(prefix),
                    way_edges(w@, nodes@, j as int) matches Ok(seg) && plan_view(plan@) == prefix
                        + seg,
                    forall|t: int|
                        0 <= t < plan@.len() ==> valid_planned(#[trigger] plan@[t]@, nodes@),
                decreases n - 1 - j,
            {
                let a = w.nodes[j];
                let b = w.nodes[j + 1];
                let ghost seg = way_edges(w@, nodes@, j as int)->Ok_0;
                proof {
                    crate::node::lemma_node_index_map_sound(nodes@);
                }
                let ia: usize = match m.get(&a) {
                    Some(x) => *x,
                    None => {
                        let err = GraphError::GraphIntegrity { node_id: a };
                        proof {
                            assert(planned_edge_at(w@, nodes@, j as int) == Err::<
                                PlannedEdgeView,
                                GraphError,
                            >(err));
                            lemma_way_edges_err(w@, nodes@, j as int, pair_count(w@), err);
                            lemma_plan_spec_err(wv, nodes@, wi as int, err);
                        }
                        return Err(err);
                    },
                };
                let ib: usize = match m.get(&b) {
                    Some(x) => *x,
                    None => {
                        let err = GraphError::GraphIntegrity { node_id: b };
                        proof {
                            assert(planned_edge_at(w@, nodes@, j as int) == Err::<
                                PlannedEdgeView,
                                GraphError,
                            >(err));
                            lemma_way_edges_err(w@, nodes@, j as int, pair_count(w@), err);
                            lemma_plan_spec_err(wv, nodes@, wi as int, err);
                        }
                        return Err(err);
                    },
                };
                let pe = PlannedEdge {
                    index1: ia,
                    index2: ib,
                    n1: nodes[ia],
                    n2: nodes[ib],
                    highway_type: w.highway_type.clone(),
                };
                proof {
                    assert(planned_edge_at(w@, nodes@, j as int) == Ok::<
                        PlannedEdgeView,
                        GraphError,
                    >(pe@));
                    assert(way_edges(w@, nodes@, j as int + 1) == Ok::<
                        Seq<PlannedEdgeView>,
                        GraphError,
                    >(seg.push(pe@)));
                    assert(plan_view(plan@.push(pe)) =~= plan_view(plan@).push(pe@));
                    assert(prefix + seg.push(pe@) =~= (prefix + seg).push(pe@));
                }
                plan.push(pe);
                j += 1;
            }
        }
        proof {
            assert(way_edges(w@, nodes@, pair_count(w@)) matches Ok(seg) && plan_view(plan@)
                == prefix + seg);
            assert(wv.take(wi as int + 1).drop_last() =~= wv.take(wi as int));
            assert(wv.take(wi as int + 1).last() == wv[wi as int]);
        }
        wi += 1;
    }
    proof {
        assert(wv.take(ways@.len() as int) =~= wv);
    }
    Ok(plan)
}

/// The edge triples that assembly of `plan` with `dists` inserts: the i-th
/// planned pair becomes one edge between its two resolved indices, carrying
/// the endpoint ids in way order, the i-th distance, and the category.
pub open spec fn assembled_edges(plan: Seq<PlannedEdgeView>, dists: Seq<Real>) -> Seq<
    (usize, usize, EdgeView),
> {
    Seq::new(
        plan.len(),
        |i: int|
            (
                plan[i].index1,
                plan[i].index2,
                EdgeView {
                    n1: plan[i].n1.id,
                    n2: plan[i].n2.id,
                    dist: dists[i],
                    highway_type: plan[i].highway_type,
                },
            ),
    )
}

/// Build the graph: insert the resolved nodes in order, then one edge per
/// planned pair, weighted with the distance the caller computed for that
/// pair. The node set of the result is exactly `nodes`; no node is added
/// incidentally during edge creation.
pub fn assemble_graph(nodes: &Vec<OSMNode>, plan: &Vec<PlannedEdge>, dists: &Vec<Real>) -> (g:
    OSMGraph)
    requires
        dists@.len() == plan@.len(),
        forall|i: int| 0 <= i < plan@.len() ==> valid_planned(#[trigger] plan@[i]@, nodes@),
        nodes@.len() < 0xffff_ffff,
        plan@.len() < 0xffff_ffff,
    ensures
        graph_nodes(g) == nodes@,
        graph_edges(g) == assembled_edges(plan_view(plan@), dists@),
{
    let mut g = graph_with_capacity(nodes.len(), plan.len());
    let mut i: usize = 0;
    proof {
        assert(nodes@.take(0) =~= Seq::<OSMNode>::empty());
    }
    while i < nodes.len()
        invariant
            0 <= i <= nodes@.len(),
            nodes@.len() < 0xffff_ffff,
            graph_nodes(g) == nodes@.take(i as int),
            graph_edges(g) == Seq::<(usize, usize, EdgeView)>::empty(),
        decreases nodes@.len() - i,
    {
        graph_add_node(&mut g, nodes[i]);
        proof {
            assert(nodes@.take(i as int + 1) =~= nodes@.take(i as int).push(nodes@[i as int]));
        }
        i += 1;
    }
    proof {
        assert(nodes@.take(nodes@.len() as int) =~= nodes@);
    }
    let mut k: usize = 0;
    proof {
        assert(graph_edges(g) =~= assembled_edges(plan_view(plan@).take(0), dists@.take(0)));
    }
    while k < plan.len()
        invariant
            0 <= k <= plan@.len(),
            dists@.len() == plan@.len(),
            plan@.len() < 0xffff_ffff,
            nodes@.len() < 0xffff_ffff,
            forall|t: int| 0 <= t < plan@.len() ==> valid_planned(#[trigger] plan@[t]@, nodes@),
            graph_nodes(g) == nodes@,
            graph_edges(g) == assembled_edges(
                plan_view(plan@).take(k as int),
                dists@.take(k as int),
            ),
        decreases plan@.len() - k,
    {
        let pe = &plan[k];
        let e = OSMEdge {
            nodes: [pe.n1.id, pe.n2.id],
            dist: dists[k],
            highway_type: pe.highway_type.clone(),
        };
        proof {
            assert(plan@[k as int]@ == pe@);
            assert(valid_planned(pe@, nodes@));
        }
        graph_add_edge(&mut g, pe.index1, pe.index2, e);
        proof {
            assert(e@.n1 == pe@.n1.id && e@.n2 == pe@.n2.id);
            assert(assembled_edges(plan_view(plan@).take(k as int + 1), dists@.take(k as int + 1))
                =~= assembled_edges(plan_view(plan@).take(k as int), dists@.take(k as int)).push(
                (pe.index1, pe.index2, e@),
            ));
        }
        k += 1;
    }
    proof {
        assert(plan_view(plan@).take(plan@.len() as int) =~= plan_view(plan@));
        assert(dists@.take(dists@.len() as int) =~= dists@);
    }
    g
}

/// Every endpoint of the first `k` consecutive pairs of `w` resolves
/// through the id-to-index mapping of `nodes`.
pub open spec fn way_pairs_resolvable(w: WayView, nodes: Seq<OSMNode>, k: int) -> bool {
    forall|i: int|
        0 <= i < k ==> node_index_map(nodes).dom().contains(#[trigger] w.nodes[i])
            && node_index_map(nodes).dom().contains(w.nodes[i + 1])
}

/// Every endpoint of every consecutive pair of every way resolves.
pub open spec fn all_pairs_resolvable(ways: Seq<WayView>, nodes: Seq<OSMNode>) -> bool {
    forall|wi: int|
        0 <= wi < ways.len() ==> way_pairs_resolvable(
            #[trigger] ways[wi],
            nodes,
            pair_count(ways[wi]),
        )
}

proof fn lemma_way_edges_success(w: WayView, nodes: Seq<OSMNode>, k: int)
    requires
        0 <= k,
    ensures
        way_edges(w, nodes, k) is Ok <==> way_pairs_resolvable(w, nodes, k),
    decreases k,
{
    if k > 0 {
        lemma_way_edges_success(w, nodes, k - 1);
        let dom = node_index_map(nodes).dom();
        if way_pairs_resolvable(w, nodes, k) {
            assert(dom.contains(w.nodes[k - 1]) && dom.contains(w.nodes[k]));
            assert(way_edges(w, nodes, k) is Ok);
        } else {
            let i = choose|i: int|
                0 <= i < k && !(dom.contains(#[trigger] w.nodes[i]) && dom.contains(
                    w.nodes[i + 1],
                ));
            if i < k - 1 {
                assert(!way_pairs_resolvable(w, nodes, k - 1));
                assert(way_edges(w, nodes, k - 1) is Err);
            } else {
                assert(planned_edge_at(w, nodes, k - 1) is Err);
            }
            assert(way_edges(w, nodes, k) is Err);
        }
    }
}

/// Planning succeeds exactly when the resolved node set covers every
/// endpoint of every consecutive pair of every way: success is owed on
/// exactly those inputs, and assembly can never fail after a successful
/// plan.
pub proof fn lemma_plan_success_iff_resolvable(ways: Seq<WayView>, nodes: Seq<OSMNode>)
    ensures
        plan_spec(ways, nodes) is Ok <==> all_pairs_resolvable(ways, nodes),
    decreases ways.len(),
{
    if ways.len() > 0 {
        lemma_plan_success_iff_resolvable(ways.drop_last(), nodes);
        lemma_way_edges_success(ways.last(), nodes, pair_count(ways.last()));
        if all_pairs_resolvable(ways, nodes) {
            assert forall|wi: int| 0 <= wi < ways.drop_last().len() implies way_pairs_resolvable(
                #[trigger] ways.drop_last()[wi],
                nodes,
                pair_count(ways.drop_last()[wi]),
            ) by {
                assert(ways.drop_last()[wi] == ways[wi]);
            }
            assert(way_pairs_resolvable(ways.last(), nodes, pair_count(ways.last())));
            assert(plan_spec(ways, nodes) is Ok);
        } else {
            let wi = choose|wi: int|
                0 <= wi < ways.len() && !way_pairs_resolvable(
                    ways[wi],
                    nodes,
                    pair_count(ways[wi]),
                );
            if wi < ways.len() - 1 {
                assert(ways.drop_last()[wi] == ways[wi]);
                assert(!all_pairs_resolvable(ways.drop_last(), nodes));
                assert(plan_spec(ways.drop_last(), nodes) is Err);
            } else {
                assert(!way_pairs_resolvable(ways.last(), nodes, pair_count(ways.last())));
            }
            assert(plan_spec(ways, nodes) is Err);
        }
    }
}

/// Every edge that assembly inserts joins two nodes present in the graph:
/// its indices are in range and its endpoint ids are those nodes' ids.
pub proof fn lemma_assembled_edges_reference_nodes(
    plan: Seq<PlannedEdgeView>,
    dists: Seq<Real>,
    nodes: Seq<OSMNode>,
)
    requires
        dists.len() == plan.len(),
        forall|i: int| 0 <= i < plan.len() ==> valid_planned(#[trigger] plan[i], nodes),
    ensures
        forall|i: int|
            0 <= i < assembled_edges(plan, dists).len() ==> {
                let e = #[trigger] assembled_edges(plan, dists)[i];
                &&& (e.0 as int) < nodes.len()
                &&& (e.1 as int) < nodes.len()
                &&& e.2.n1 == nodes[e.0 as int].id
                &&& e.2.n2 == nodes[e.1 as int].id
            },
{
    assert forall|i: int| 0 <= i < assembled_edges(plan, dists).len() implies {
        let e = #[trigger] assembled_edges(plan, dists)[i];
        &&& (e.0 as int) < nodes.len()
        &&& (e.1 as int) < nodes.len()
        &&& e.2.n1 == nodes[e.0 as int].id
        &&& e.2.n2 == nodes[e.1 as int].id
    } by {
        assert(valid_planned(plan[i], nodes));
    }
}

proof fn lemma_way_edges_props(w: WayView, nodes: Seq<OSMNode>, k: int, es: Seq<PlannedEdgeView>)
    requires
        0 <= k,
        way_edges(w, nodes, k) == Ok::<Seq<PlannedEdgeView>, GraphError>(es),
    ensures
        es.len() == k,
        forall|i: int|
            0 <= i < k ==> planned_edge_at(w, nodes, i) == Ok::<PlannedEdgeView, GraphError>(
                #[trigger] es[i],
            ),
    decreases k,
{
    if k > 0 {
        let pre = way_edges(w, nodes, k - 1)->Ok_0;
        lemma_way_edges_props(w, nodes, k - 1, pre);
    }
}

/// A retained way with n node ids yields exactly n - 1 planned edges, the
/// i-th connecting the way's i-th and (i+1)-th node ids, in source order.
pub proof fn lemma_way_edge_multiplicity(w: WayView, nodes: Seq<OSMNode>, es: Seq<PlannedEdgeView>)
    requires
        way_edges(w, nodes, pair_count(w)) == Ok::<Seq<PlannedEdgeView>, GraphError>(es),
        w.nodes.len() >= 1,
        nodes.len() <= usize::MAX,
    ensures
        es.len() == w.nodes.len() - 1,
        forall|i: int|
            0 <= i < es.len() ==> (#[trigger] es[i]).n1.id == w.nodes[i] && es[i].n2.id
                == w.nodes[i + 1],
{
    lemma_way_edges_props(w, nodes, pair_count(w), es);
    crate::node::lemma_node_index_map_sound(nodes);
    assert forall|i: int| 0 <= i < es.len() implies (#[trigger] es[i]).n1.id == w.nodes[i]
        && es[i].n2.id == w.nodes[i + 1] by {
        assert(planned_edge_at(w, nodes, i) == Ok::<PlannedEdgeView, GraphError>(es[i]));
    }
}

} // verus!
