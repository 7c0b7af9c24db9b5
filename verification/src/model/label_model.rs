use vstd::prelude::*;
use crate::cost::StateVariable;
use crate::label::Label;
use crate::model::state::StateModel;
use crate::network::VertexId;

verus! {

/// Errors raised while building a label.
#[derive(Debug, PartialEq, Eq, Structural)]
pub enum LabelModelError {
    /// the state did not hold what the label model reads from it
    BadLabelVecSize(usize, usize),
}

/// Builds the search tree key of a vertex reached in some search state.
pub trait LabelModel {
    /// Whether this model may answer `r` when asked for the label of `vertex_id` reached in `state`.
    /// A model that does not say allows every answer.
    open spec fn label_answer(&self, vertex_id: VertexId, state: Seq<StateVariable>, state_model: StateModel, r: Result<Label, LabelModelError>) -> bool {
        true
    }

    /// The label of `vertex_id` reached in `state`; it always names `vertex_id`.
    fn label_from_state(&self, vertex_id: VertexId, state: &Vec<StateVariable>, state_model: &StateModel) -> (r: Result<Label, LabelModelError>)
        ensures
            self.label_answer(vertex_id, state@, *state_model, r),
            r matches Ok(l) ==> l.vertex() == vertex_id;
}

/// The label model that keys the search tree by vertex alone.
#[derive(Debug, Clone, Copy)]
pub struct VertexLabelModel {}

impl LabelModel for VertexLabelModel {
    /// The vertex alone, whatever the state.
    open spec fn label_answer(&self, vertex_id: VertexId, state: Seq<StateVariable>, state_model: StateModel, r: Result<Label, LabelModelError>) -> bool {
        r == Ok::<Label, LabelModelError>(Label::Vertex(vertex_id))
    }

    fn label_from_state(&self, vertex_id: VertexId, state: &Vec<StateVariable>, state_model: &StateModel) -> (r: Result<Label, LabelModelError>)
        ensures
            r == Ok::<Label, LabelModelError>(Label::Vertex(vertex_id)),
    {
        Ok(Label::Vertex(vertex_id))
    }
}

} // verus!
