use vstd::prelude::*;
use std::collections::HashSet;
use crate::cost::StateVariable;
use crate::model::frontier::{FrontierModel, FrontierModelError};
use crate::model::state::StateModel;
use crate::network::Edge;

verus! {

broadcast use vstd::std_specs::hash::group_hash_axioms;

/// A frontier model that keeps a set of "cut" edges, by edge id, off the frontier, and
/// defers to the underlying model for every other edge.
pub struct EdgeCutFrontierModel<F: FrontierModel> {
    pub underlying: F,
    cut_edges: HashSet<usize>,
}

impl<F: FrontierModel> EdgeCutFrontierModel<F> {
    /// The ids of the cut edges.
    pub closed spec fn cut(&self) -> Set<usize> {
        self.cut_edges@
    }

    /// The wrapped model.
    pub closed spec fn inner(&self) -> F {
        self.underlying
    }

    /// Wraps `underlying`, cutting the edges whose ids are in `cut_edges`.
    pub fn new(underlying: F, cut_edges: HashSet<usize>) -> (m: EdgeCutFrontierModel<F>)
        ensures
            m.inner() == underlying,
            m.cut() == cut_edges@,
    {
        EdgeCutFrontierModel { underlying, cut_edges }
    }
}

impl<F: FrontierModel> FrontierModel for EdgeCutFrontierModel<F> {
    /// `Ok(false)` for a cut edge; for any other edge, an answer of the underlying model.
    open spec fn frontier_answer(&self, edge: Edge, state: Seq<StateVariable>, previous_edge: Option<Edge>, state_model: StateModel, r: Result<bool, FrontierModelError>) -> bool {
        if self.cut().contains(edge.edge_id.0) {
            r == Ok::<bool, FrontierModelError>(false)
        } else {
            self.inner().frontier_answer(edge, state, previous_edge, state_model, r)
        }
    }

    /// A cut edge is never a valid frontier; any other edge is judged by the underlying model.
    fn valid_frontier(
        &self,
        edge: &Edge,
        state: &Vec<StateVariable>,
        previous_edge: Option<&Edge>,
        state_model: &StateModel,
    ) -> (r: Result<bool, FrontierModelError>)
        ensures
            self.cut().contains(edge.edge_id.0) ==> r == Ok::<bool, FrontierModelError>(false),
    {
        if self.cut_edges.contains(&edge.edge_id.0) {
            Ok(false)
        } else {
            self.underlying.valid_frontier(edge, state, previous_edge, state_model)
        }
    }
}

} // verus!
