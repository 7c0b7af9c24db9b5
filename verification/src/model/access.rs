use vstd::prelude::*;
use crate::cost::StateVariable;
use crate::model::state::StateModel;
use crate::network::{Edge, Vertex};

verus! {

/// Errors raised while accessing an edge from another.
#[derive(Debug, PartialEq, Eq, Structural)]
pub enum AccessModelError {
    /// the state did not hold what the access model reads from it
    AccessModelError(usize),
}

/// Updates the search state for the move from one edge onto the next.
pub trait AccessModel {
    /// Updates `state` for the move `(v1) -[e1]-> (v2) -[e2]-> (v3)` given as `traversal`.
    fn access_edge(
        &self,
        traversal: (&Vertex, &Edge, &Vertex, &Edge, &Vertex),
        state: &mut Vec<StateVariable>,
        state_model: &StateModel,
    ) -> (r: Result<(), AccessModelError>);
}

} // verus!
