use vstd::prelude::*;
use crate::cost::StateVariable;
use crate::model::state::StateModel;
use crate::network::Edge;

verus! {

/// Errors raised while testing a constraint.
#[derive(Debug, PartialEq, Eq, Structural)]
pub enum ConstraintModelError {
    /// the state did not hold what the constraint reads from it
    ConstraintModelError(usize),
}

/// The edge behind an optional reference.
pub open spec fn edge_of(e: Option<&Edge>) -> Option<Edge> {
    match e {
        Some(x) => Some(*x),
        None => None,
    }
}

/// Decides which edges a search may use.
pub trait ConstraintModel {
    /// The edges this model never lets a search traverse; a model that does not say
    /// forbids none.
    open spec fn forbids(&self, edge: Edge) -> bool {
        false
    }

    /// Whether `r` is an answer this model may give when asked whether `edge` may be
    /// traversed next, after `previous_edge`, from `state`.
    /// A model that does not say allows every answer.
    open spec fn frontier_answer(&self, edge: Edge, previous_edge: Option<Edge>, state: Seq<StateVariable>, state_model: StateModel, r: Result<bool, ConstraintModelError>) -> bool {
        true
    }

    /// Whether `r` is an answer this model may give when asked whether `edge` may be used at all.
    /// A model that does not say allows every answer.
    open spec fn edge_answer(&self, edge: Edge, r: Result<bool, ConstraintModelError>) -> bool {
        true
    }

    /// Whether `edge` may be traversed next, after `previous_edge`, from `state`; never
    /// for an edge the model forbids.
    fn valid_frontier(
        &self,
        edge: &Edge,
        previous_edge: Option<&Edge>,
        state: &Vec<StateVariable>,
        state_model: &StateModel,
    ) -> (r: Result<bool, ConstraintModelError>)
        ensures
            self.frontier_answer(*edge, edge_of(previous_edge), state@, *state_model, r),
            self.forbids(*edge) ==> r != Ok::<bool, ConstraintModelError>(true);

    /// Whether `edge` may be used at all.
    fn valid_edge(&self, edge: &Edge) -> (r: Result<bool, ConstraintModelError>)
        ensures
            self.edge_answer(*edge, r);
}

/// The constraint model that allows every edge.
#[derive(Debug, Clone, Copy)]
pub struct NoRestriction {}

impl ConstraintModel for NoRestriction {
    /// No edge is forbidden.
    open spec fn forbids(&self, edge: Edge) -> bool {
        false
    }

    /// Every edge may be traversed.
    open spec fn frontier_answer(&self, edge: Edge, previous_edge: Option<Edge>, state: Seq<StateVariable>, state_model: StateModel, r: Result<bool, ConstraintModelError>) -> bool {
        r == Ok::<bool, ConstraintModelError>(true)
    }

    /// Every edge may be used.
    open spec fn edge_answer(&self, edge: Edge, r: Result<bool, ConstraintModelError>) -> bool {
        r == Ok::<bool, ConstraintModelError>(true)
    }

    fn valid_frontier(
        &self,
        edge: &Edge,
        previous_edge: Option<&Edge>,
        state: &Vec<StateVariable>,
        state_model: &StateModel,
    ) -> (r: Result<bool, ConstraintModelError>)
        ensures
            r == Ok::<bool, ConstraintModelError>(true),
    {
        Ok(true)
    }

    fn valid_edge(&self, edge: &Edge) -> (r: Result<bool, ConstraintModelError>)
        ensures
            r == Ok::<bool, ConstraintModelError>(true),
    {
        Ok(true)
    }
}

} // verus!
