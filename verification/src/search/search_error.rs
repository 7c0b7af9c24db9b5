use vstd::prelude::*;
use crate::model::access::AccessModelError;
use crate::model::constraint::ConstraintModelError;
use crate::model::cost_model::CostModelError;
use crate::model::frontier::FrontierModelError;
use crate::model::label_model::LabelModelError;
use crate::model::state::StateModelError;
use crate::model::termination::TerminationModelError;
use crate::model::traversal::TraversalModelError;
use crate::network::{EdgeId, NetworkError, VertexId};
use crate::search::search_tree::SearchTreeError;

verus! {

/// Errors raised by a search.
#[derive(Debug)]
pub enum SearchError {
    BuildError(String),
    LabelFailure { source: LabelModelError },
    StateFailure { source: StateModelError },
    NetworkFailure { source: NetworkError },
    TerminationModelFailure { source: TerminationModelError },
    TraversalModelFailure { source: TraversalModelError },
    AccessModelFailure { source: AccessModelError },
    FrontierModelFailure { source: FrontierModelError },
    ConstraintFailure { source: ConstraintModelError },
    CostFailure { source: CostModelError },
    SearchTreeFailure { source: SearchTreeError },
    QueryTerminated(String),
    NoPathExistsBetweenVertices(VertexId, VertexId, usize),
    NoPathExistsBetweenEdges(EdgeId, EdgeId, usize),
    ReadOnlyPoisonError(String),
    InternalError(String),
}

} // verus!
