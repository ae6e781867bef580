//! The way extractor: polyline records tagged as roads become typed ways.

use vstd::prelude::*;

use crate::element::{tag_value, Element, ElementView, Field, Real, views_of};
use crate::error::{GraphError, RecordField};
use crate::extract::{
    lemma_output_from_kept_elem, lemma_scan_err, lemma_scan_ok_is_kept,
    lemma_skipped_elem_contributes_nothing, scan_elements, Extracted,
};

verus! {

broadcast use vstd::string::to_string_from_display_ensures_for_str;

/// A retained road way: its id, the ordered node ids of the polyline (the
/// order is the polyline order), the distances of consecutive pairs (empty
/// until assembly), and the road category, taken verbatim from the road
/// tag's value.
#[derive(Clone, PartialEq, Debug)]
pub struct OSMWay {
    pub id: u64,
    pub nodes: Vec<u64>,
    pub dists: Vec<Real>,
    pub highway_type: String,
}

/// The mathematical shape of an `OSMWay`.
pub struct WayView {
    pub id: u64,
    pub nodes: Seq<u64>,
    pub dists: Seq<Real>,
    pub highway_type: Seq<char>,
}

impl View for OSMWay {
    type V = WayView;

    open spec fn view(&self) -> WayView {
        WayView {
            id: self.id,
            nodes: self.nodes@,
            dists: self.dists@,
            highway_type: self.highway_type@,
        }
    }
}

impl OSMWay {
    pub fn new(id: u64, nodes: Vec<u64>, dists: Vec<Real>, highway_type: String) -> (r: OSMWay)
        ensures
            r@ == (WayView { id, nodes: nodes@, dists: dists@, highway_type: highway_type@ }),
    {
        OSMWay { id, nodes, dists, highway_type }
    }

    /// Get the way ID.
    pub fn id(&self) -> (r: u64)
        ensures
            r == self.id,
    {
        self.id
    }

    /// Get the ordered node ids on this way.
    pub fn nodes(&self) -> (r: &Vec<u64>)
        ensures
            r@ == self@.nodes,
    {
        &self.nodes
    }

    /// Get the distances between consecutive nodes.
    pub fn dists(&self) -> (r: &Vec<Real>)
        ensures
            r@ == self@.dists,
    {
        &self.dists
    }

    /// Get the road category of this way.
    pub fn highway_type(&self) -> (r: &str)
        ensures
            r@ == self@.highway_type,
    {
        self.highway_type.as_str()
    }
}

/// The views of a sequence of ways.
pub open spec fn ways_view(ways: Seq<OSMWay>) -> Seq<WayView> {
    ways.map_values(|w: OSMWay| w@)
}

/// The key whose presence in a polyline record's tags is the sole admission
/// criterion for ways.
pub open spec fn highway_key() -> Seq<char> {
    "highway"@
}

/// Classification of one element by the way extractor: a point record or an
/// untagged polyline is skipped; a road-tagged polyline is kept, and is
/// fatal if its id or node list is absent or ill-shaped.
pub open spec fn way_step(e: ElementView) -> Extracted<WayView> {
    match e {
        ElementView::Node { .. } => Extracted::Skip,
        ElementView::Way { id, nodes, tags } => match tags {
            None => Extracted::Skip,
            Some(ts) => match tag_value(ts, highway_key()) {
                None => Extracted::Skip,
                Some(hw) => match id {
                    Field::Absent => Extracted::Fail(
                        GraphError::MissingField { field: RecordField::WayId },
                    ),
                    Field::Bad => Extracted::Fail(
                        GraphError::MalformedValue { field: RecordField::WayId },
                    ),
                    Field::Val(id) => match nodes {
                        Field::Absent => Extracted::Fail(
                            GraphError::MissingField { field: RecordField::WayNodes },
                        ),
                        Field::Bad => Extracted::Fail(
                            GraphError::MalformedValue { field: RecordField::WayNodes },
                        ),
                        Field::Val(ns) => Extracted::Keep(
                            WayView {
                                id,
                                nodes: ns,
                                dists: Seq::empty(),
                                highway_type: hw,
                            },
                        ),
                    },
                },
            },
        },
    }
}

pub open spec fn way_step_fn() -> spec_fn(ElementView) -> Extracted<WayView> {
    |e: ElementView| way_step(e)
}

/// The way extraction pass over a whole element sequence.
pub open spec fn extract_ways(elems: Seq<ElementView>) -> Result<Seq<WayView>, GraphError> {
    scan_elements(elems, way_step_fn())
}

fn copy_ids(v: &Vec<u64>) -> (r: Vec<u64>)
    ensures
        r@ == v@,
{
    let mut r: Vec<u64> = Vec::new();
    let mut i: usize = 0;
    while i < v.len()
        invariant
            0 <= i <= v@.len(),
            r@ == v@.take(i as int),
        decreases v@.len() - i,
    {
        r.push(v[i]);
        proof {
            assert(v@.take(i as int + 1).drop_last() =~= v@.take(i as int));
            assert(r@ =~= v@.take(i as int + 1));
        }
        i += 1;
    }
    proof {
        assert(v@.take(v@.len() as int) =~= v@);
    }
    r
}

/// Extract every road-tagged polyline record as an `OSMWay`, in source
/// order, with empty distances. An untagged polyline produces nothing; a
/// road-tagged polyline without id or nodes aborts the extraction.
pub fn get_osm_ways(elements: &Vec<Element>) -> (r: Result<Vec<OSMWay>, GraphError>)
    ensures
        match r {
            Ok(ws) => extract_ways(views_of(elements@)) == Ok::<Seq<WayView>, GraphError>(
                ways_view(ws@),
            ),
            Err(e) => extract_ways(views_of(elements@)) == Err::<Seq<WayView>, GraphError>(e),
        },
{
    let ghost all = views_of(elements@);
    let hw_key: String = "highway".to_string();
    let mut out: Vec<OSMWay> = Vec::new();
    let mut i: usize = 0;
    proof {
        assert(all.take(0) =~= Seq::<ElementView>::empty());
        assert(ways_view(out@) =~= Seq::<WayView>::empty());
    }
    while i < elements.len()
        invariant
            0 <= i <= elements@.len(),
            all == views_of(elements@),
            hw_key@ == highway_key(),
            extract_ways(all.take(i as int)) == Ok::<Seq<WayView>, GraphError>(ways_view(out@)),
        decreases elements@.len() - i,
    {
        proof {
            assert(all.take(i as int + 1).drop_last() =~= all.take(i as int));
            assert(all[i as int] == elements@[i as int]@);
        }
        let e = &elements[i];
        let kept: Option<OSMWay> = match e {
            Element::Node { .. } => None,
            Element::Way { id, nodes, tags } => match tags {
                None => None,
                Some(ts) => match ts.get(&hw_key) {
                    None => None,
                    Some(hwv) => {
                        let idv: u64 = match id {
                            Field::Val(v) => *v,
                            Field::Absent => {
                                let err = GraphError::MissingField { field: RecordField::WayId };
                                proof {
                                    lemma_scan_err(all, way_step_fn(), i as int, err);
                                }
                                return Err(err);
                            },
                            Field::Bad => {
                                let err = GraphError::MalformedValue { field: RecordField::WayId };
                                proof {
                                    lemma_scan_err(all, way_step_fn(), i as int, err);
                                }
                                return Err(err);
                            },
                        };
                        let nsv: Vec<u64> = match nodes {
                            Field::Val(v) => copy_ids(v),
                            Field::Absent => {
                                let err = GraphError::MissingField {
                                    field: RecordField::WayNodes,
                                };
                                proof {
                                    lemma_scan_err(all, way_step_fn(), i as int, err);
                                }
                                return Err(err);
                            },
                            Field::Bad => {
                                let err = GraphError::MalformedValue {
                                    field: RecordField::WayNodes,
                                };
                                proof {
                                    lemma_scan_err(all, way_step_fn(), i as int, err);
                                }
                                return Err(err);
                            },
                        };
                        Some(
                            OSMWay {
                                id: idv,
                                nodes: nsv,
                                dists: Vec::new(),
                                highway_type: hwv.clone(),
                            },
                        )
                    },
                },
            },
        };
        match kept {
            Some(w) => {
                proof {
                    assert(way_step(all[i as int]) == Extracted::Keep(w@));
                    assert(ways_view(out@.push(w)) =~= ways_view(out@).push(w@));
                }
                out.push(w);
            },
            None => {
                proof {
                    assert(way_step(all[i as int]) == Extracted::<WayView>::Skip);
                }
            },
        }
        i += 1;
    }
    proof {
        assert(all.take(elements@.len() as int) =~= all);
    }
    Ok(out)
}

/// A polyline record with no tag map, or whose tags lack the road key, is
/// dropped by the way extractor.
pub open spec fn untagged_way(e: ElementView) -> bool {
    match e {
        ElementView::Way { tags: None, .. } => true,
        ElementView::Way { tags: Some(ts), .. } => tag_value(ts, highway_key()) is None,
        _ => false,
    }
}

/// An untagged polyline record produces no way at all: extraction of the
/// element sequence without it has the very same outcome.
pub proof fn lemma_untagged_way_contributes_nothing(elems: Seq<ElementView>, i: int)
    requires
        0 <= i < elems.len(),
        untagged_way(elems[i]),
    ensures
        extract_ways(elems) == extract_ways(elems.remove(i)),
{
    assert(way_step(elems[i]) == Extracted::<WayView>::Skip);
    lemma_skipped_elem_contributes_nothing(elems, way_step_fn(), i);
}

/// Every retained way originates in a road-tagged polyline record of the
/// input, and carries that record's id, node list, and tag value verbatim.
pub proof fn lemma_retained_way_is_tagged(elems: Seq<ElementView>, ws: Seq<WayView>, j: int)
    requires
        extract_ways(elems) == Ok::<Seq<WayView>, GraphError>(ws),
        0 <= j < ws.len(),
    ensures
        exists|i: int|
            0 <= i < elems.len() && way_step(elems[i]) == Extracted::Keep(ws[j]),
{
    lemma_scan_ok_is_kept(elems, way_step_fn(), ws);
    lemma_output_from_kept_elem(elems, way_step_fn(), j);
}

} // verus!
