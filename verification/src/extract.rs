//! The shared shape of the two extractors: a single forward pass over the
//! element sequence in which each element is kept, silently skipped, or
//! fatal for the whole extraction.

use vstd::prelude::*;

use crate::element::ElementView;
use crate::error::GraphError;

verus! {

/// The outcome of classifying one element during an extraction pass.
pub enum Extracted<T> {
    /// The element is not of the wanted kind, or is a benign omission.
    Skip,
    /// The element yields one output value.
    Keep(T),
    /// The element is fatal for the whole extraction.
    Fail(GraphError),
}

/// One forward pass: the outputs of `step` over `elems` in source order,
/// stopped at the first fatal element.
pub open spec fn scan_elements<T>(
    elems: Seq<ElementView>,
    step: spec_fn(ElementView) -> Extracted<T>,
) -> Result<Seq<T>, GraphError>
    decreases elems.len(),
{
    if elems.len() == 0 {
        Ok(Seq::empty())
    } else {
        match scan_elements(elems.drop_last(), step) {
            Err(e) => Err(e),
            Ok(pre) => match step(elems.last()) {
                Extracted::Skip => Ok(pre),
                Extracted::Keep(t) => Ok(pre.push(t)),
                Extracted::Fail(e) => Err(e),
            },
        }
    }
}

/// The kept values of a pass, ignoring fatal elements. Where the pass
/// succeeds, this is exactly its output (`lemma_scan_ok_is_kept`).
pub open spec fn scan_kept<T>(
    elems: Seq<ElementView>,
    step: spec_fn(ElementView) -> Extracted<T>,
) -> Seq<T>
    decreases elems.len(),
{
    if elems.len() == 0 {
        Seq::empty()
    } else {
        let pre = scan_kept(elems.drop_last(), step);
        match step(elems.last()) {
            Extracted::Keep(t) => pre.push(t),
            _ => pre,
        }
    }
}

/// A successful pass returns exactly the kept values, in source order.
pub proof fn lemma_scan_ok_is_kept<T>(
    elems: Seq<ElementView>,
    step: spec_fn(ElementView) -> Extracted<T>,
    out: Seq<T>,
)
    requires
        scan_elements(elems, step) == Ok::<Seq<T>, GraphError>(out),
    ensures
        out == scan_kept(elems, step),
    decreases elems.len(),
{
    if elems.len() > 0 {
        let pre = scan_elements(elems.drop_last(), step);
        match pre {
            Ok(p) => {
                lemma_scan_ok_is_kept(elems.drop_last(), step, p);
            },
            Err(_) => {},
        }
    }
}

/// A pass fails with the error of its first fatal element: a fatal element
/// after a clean prefix decides the outcome of the whole pass.
pub proof fn lemma_scan_err<T>(
    elems: Seq<ElementView>,
    step: spec_fn(ElementView) -> Extracted<T>,
    i: int,
    err: GraphError,
)
    requires
        0 <= i < elems.len(),
        scan_elements(elems.take(i), step) is Ok,
        step(elems[i]) == Extracted::<T>::Fail(err),
    ensures
        scan_elements(elems, step) == Err::<Seq<T>, GraphError>(err),
    decreases elems.len(),
{
    if i == elems.len() - 1 {
        assert(elems.take(i) =~= elems.drop_last());
    } else {
        assert(elems.drop_last().take(i) =~= elems.take(i));
        lemma_scan_err(elems.drop_last(), step, i, err);
    }
}

/// An element that the pass skips contributes nothing: the pass over the
/// sequence with that element removed has the same outcome.
pub proof fn lemma_skipped_elem_contributes_nothing<T>(
    elems: Seq<ElementView>,
    step: spec_fn(ElementView) -> Extracted<T>,
    i: int,
)
    requires
        0 <= i < elems.len(),
        step(elems[i]) == Extracted::<T>::Skip,
    ensures
        scan_elements(elems, step) == scan_elements(elems.remove(i), step),
    decreases elems.len(),
{
    if i == elems.len() - 1 {
        assert(elems.remove(i) =~= elems.drop_last());
    } else {
        assert(elems.remove(i).drop_last() =~= elems.drop_last().remove(i));
        assert(elems.remove(i).last() == elems.last());
        lemma_skipped_elem_contributes_nothing(elems.drop_last(), step, i);
    }
}

/// Every value that a successful pass keeps appears in its output.
pub proof fn lemma_kept_elem_in_output<T>(
    elems: Seq<ElementView>,
    step: spec_fn(ElementView) -> Extracted<T>,
    i: int,
    t: T,
)
    requires
        0 <= i < elems.len(),
        step(elems[i]) == Extracted::Keep(t),
    ensures
        scan_kept(elems, step).contains(t),
    decreases elems.len(),
{
    let out = scan_kept(elems, step);
    let pre = scan_kept(elems.drop_last(), step);
    if i == elems.len() - 1 {
        assert(out == pre.push(t));
        assert(out[pre.len() as int] == t);
    } else {
        lemma_kept_elem_in_output(elems.drop_last(), step, i, t);
        let j = choose|j: int| 0 <= j < pre.len() && pre[j] == t;
        assert(out[j] == t);
        assert(0 <= j < out.len());
    }
}

/// Conversely, every value in the kept sequence originates in some element
/// that the pass keeps.
pub proof fn lemma_output_from_kept_elem<T>(
    elems: Seq<ElementView>,
    step: spec_fn(ElementView) -> Extracted<T>,
    j: int,
)
    requires
        0 <= j < scan_kept(elems, step).len(),
    ensures
        exists|i: int|
            0 <= i < elems.len() && step(elems[i]) == Extracted::Keep(
                scan_kept(elems, step)[j],
            ),
    decreases elems.len(),
{
    let out = scan_kept(elems, step);
    let pre = scan_kept(elems.drop_last(), step);
    if j < pre.len() {
        lemma_output_from_kept_elem(elems.drop_last(), step, j);
        let i = choose|i: int|
            0 <= i < elems.drop_last().len() && step(elems.drop_last()[i]) == Extracted::Keep(
                pre[j],
            );
        assert(elems[i] == elems.drop_last()[i]);
        assert(out[j] == pre[j]);
        assert(step(elems[i]) == Extracted::Keep(out[j]));
    } else {
        assert(step(elems.last()) == Extracted::Keep(out[j]));
        assert(elems[elems.len() - 1] == elems.last());
    }
}

} // verus!
