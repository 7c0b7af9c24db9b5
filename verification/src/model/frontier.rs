use vstd::prelude::*;
use crate::cost::StateVariable;
use crate::model::state::StateModel;
use crate::model::constraint::edge_of;
use crate::network::Edge;

verus! {

/// Errors raised while testing the search frontier.
#[derive(Debug, PartialEq, Eq, Structural)]
pub enum FrontierModelError {
    /// the state did not hold what the frontier model reads from it
    FrontierModelError(usize),
}

/// Decides which edges may be added to the search frontier.
pub trait FrontierModel {
    /// Whether `r` is an answer this model may give when asked whether `edge` may be
    /// added to the frontier from `state`, after `previous_edge`.
    /// A model that does not say allows every answer.
    open spec fn frontier_answer(&self, edge: Edge, state: Seq<StateVariable>, previous_edge: Option<Edge>, state_model: StateModel, r: Result<bool, FrontierModelError>) -> bool {
        true
    }

    /// Whether `edge` may be added to the frontier from `state`, after `previous_edge`.
    fn valid_frontier(
        &self,
        edge: &Edge,
        state: &Vec<StateVariable>,
        previous_edge: Option<&Edge>,
        state_model: &StateModel,
    ) -> (r: Result<bool, FrontierModelError>)
        ensures
            self.frontier_answer(*edge, state@, edge_of(previous_edge), *state_model, r);
}

} // verus!
