use vstd::prelude::*;
use crate::cost::StateVariable;
use crate::model::state::StateModel;
use crate::model::constraint::edge_of;
use crate::network::Edge;

verus! {

/// Errors raised while filtering edges.
#[derive(Debug, PartialEq, Eq, Structural)]
pub enum FilterModelError {
    /// the state did not hold what the filter reads from it
    FilterModelError(usize),
}

/// Filters the edges a search may use.
pub trait FilterModel {
    /// Whether `r` is an answer this model may give when asked whether `edge` may be
    /// traversed next, after `previous_edge`, from `state`.
    /// A model that does not say allows every answer.
    open spec fn frontier_answer(&self, edge: Edge, previous_edge: Option<Edge>, state: Seq<StateVariable>, state_model: StateModel, r: Result<bool, FilterModelError>) -> bool {
        true
    }

    /// Whether `r` is an answer this model may give when asked whether `edge` may be used at all.
    /// A model that does not say allows every answer.
    open spec fn edge_answer(&self, edge: Edge, r: Result<bool, FilterModelError>) -> bool {
        true
    }

    /// Whether `edge` may be traversed next, after `previous_edge`, from `state`.
    fn valid_frontier(
        &self,
        edge: &Edge,
        previous_edge: Option<&Edge>,
        state: &Vec<StateVariable>,
        state_model: &StateModel,
    ) -> (r: Result<bool, FilterModelError>)
        ensures
            self.frontier_answer(*edge, edge_of(previous_edge), state@, *state_model, r);

    /// Whether `edge` may be used at all.
    fn valid_edge(&self, edge: &Edge) -> (r: Result<bool, FilterModelError>)
        ensures
            self.edge_answer(*edge, r);
}

} // verus!
