use vstd::prelude::*;
use crate::network::VertexId;

verus! {

/// The key of a search tree node: a vertex, possibly refined by a discrete
/// search state so that the same vertex may be reached in several states.
#[derive(Clone, Copy, Debug, PartialEq, Eq, Hash, Structural)]
pub enum Label {
    Vertex(VertexId),
    VertexWithIntState { vertex_id: VertexId, state: usize },
}

impl Label {
    /// The vertex this label refers to.
    pub open spec fn vertex(self) -> VertexId {
        match self {
            Label::Vertex(v) => v,
            Label::VertexWithIntState { vertex_id, .. } => vertex_id,
        }
    }

    /// The vertex this label refers to.
    pub fn vertex_id(&self) -> (v: &VertexId)
        ensures
            *v == self.vertex(),
    {
        match self {
            Label::Vertex(v) => v,
            Label::VertexWithIntState { vertex_id, .. } => vertex_id,
        }
    }
}

} // verus!
