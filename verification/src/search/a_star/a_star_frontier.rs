use vstd::prelude::*;
use crate::cost::StateVariable;
use crate::network::{EdgeId, VertexId};

verus! {

/// A vertex on the frontier of a search, with the edge that reached it and the state
/// there. Two frontier entries are equal when they are at the same vertex.
#[derive(Debug)]
pub struct AStarFrontier {
    pub vertex_id: VertexId,
    pub prev_edge_id: Option<EdgeId>,
    pub state: Vec<StateVariable>,
}

impl PartialEq for AStarFrontier {
    fn eq(&self, other: &Self) -> (b: bool) {
        self.vertex_id.0 == other.vertex_id.0
    }
}

impl vstd::std_specs::cmp::PartialEqSpecImpl for AStarFrontier {
    open spec fn obeys_eq_spec() -> bool {
        true
    }

    open spec fn eq_spec(&self, other: &AStarFrontier) -> bool {
        self.vertex_id == other.vertex_id
    }
}

impl Eq for AStarFrontier {}

} // verus!
