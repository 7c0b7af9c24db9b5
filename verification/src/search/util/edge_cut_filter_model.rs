use vstd::prelude::*;
use std::collections::HashSet;
use crate::cost::StateVariable;
use crate::model::filter::{FilterModel, FilterModelError};
use crate::model::state::StateModel;
use crate::network::Edge;

verus! {

broadcast use vstd::std_specs::hash::group_hash_axioms;

/// A filter model that forbids a set of "cut" edges, by edge id, and defers to
/// the underlying model for every other edge.
pub struct EdgeCutFilterModel<C: FilterModel> {
    pub underlying: C,
    cut_edges: HashSet<usize>,
}

impl<C: FilterModel> EdgeCutFilterModel<C> {
    /// The ids of the cut edges.
    pub closed spec fn cut(&self) -> Set<usize> {
        self.cut_edges@
    }

    /// The wrapped model.
    pub closed spec fn inner(&self) -> C {
        self.underlying
    }

    /// Wraps `underlying`, cutting the edges whose ids are in `cut_edges`.
    pub fn new(underlying: C, cut_edges: HashSet<usize>) -> (m: EdgeCutFilterModel<C>)
        ensures
            m.inner() == underlying,
            m.cut() == cut_edges@,
    {
        EdgeCutFilterModel { underlying, cut_edges }
    }
}

impl<C: FilterModel> FilterModel for EdgeCutFilterModel<C> {
    /// `Ok(false)` for a cut edge; for any other edge, an answer of the underlying model.
    open spec fn frontier_answer(&self, edge: Edge, previous_edge: Option<Edge>, state: Seq<StateVariable>, state_model: StateModel, r: Result<bool, FilterModelError>) -> bool {
        if self.cut().contains(edge.edge_id.0) {
            r == Ok::<bool, FilterModelError>(false)
        } else {
            self.inner().frontier_answer(edge, previous_edge, state, state_model, r)
        }
    }

    /// `Ok(false)` for a cut edge; for any other edge, an answer of the underlying model.
    open spec fn edge_answer(&self, edge: Edge, r: Result<bool, FilterModelError>) -> bool {
        if self.cut().contains(edge.edge_id.0) {
            r == Ok::<bool, FilterModelError>(false)
        } else {
            self.inner().edge_answer(edge, r)
        }
    }

    /// A cut edge is never a valid frontier; any other edge is judged by the underlying model.
    fn valid_frontier(
        &self,
        edge: &Edge,
        previous_edge: Option<&Edge>,
        state: &Vec<StateVariable>,
        state_model: &StateModel,
    ) -> (r: Result<bool, FilterModelError>)
        ensures
            self.cut().contains(edge.edge_id.0) ==> r == Ok::<bool, FilterModelError>(false),
    {
        if self.cut_edges.contains(&edge.edge_id.0) {
            Ok(false)
        } else {
            self.underlying.valid_frontier(edge, previous_edge, state, state_model)
        }
    }

    /// A cut edge is never valid; any other edge is judged by the underlying model.
    fn valid_edge(&self, edge: &Edge) -> (r: Result<bool, FilterModelError>)
        ensures
            self.cut().contains(edge.edge_id.0) ==> r == Ok::<bool, FilterModelError>(false),
    {
        if self.cut_edges.contains(&edge.edge_id.0) {
            Ok(false)
        } else {
            self.underlying.valid_edge(edge)
        }
    }
}

} // verus!
