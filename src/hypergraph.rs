//! The canonical hypergraph record produced from a lax hypergraph.
use crate::finite_function::FiniteFunction;
use crate::indexed_coproduct::IndexedCoproduct;
use crate::semifinite::SemifiniteFunction;
use vstd::prelude::*;

verus! {

/// A hypergraph in array form: for each edge its list of source nodes (`s`) and of target
/// nodes (`t`), the node labels (`w`) and the edge labels (`x`).
pub struct Hypergraph<O, A> {
    pub s: IndexedCoproduct<FiniteFunction>,
    pub t: IndexedCoproduct<FiniteFunction>,
    pub w: SemifiniteFunction<O>,
    pub x: SemifiniteFunction<A>,
}

} // verus!
