use vstd::prelude::*;
use crate::model::access::AccessModel;
use crate::model::constraint::ConstraintModel;
use crate::model::cost_model::CostModel;
use crate::model::frontier::FrontierModel;
use crate::model::label_model::LabelModel;
use crate::model::state::StateModel;
use crate::model::termination::TerminationModel;
use crate::model::traversal::TraversalModel;
use crate::network::{EdgeListId, Graph};
use crate::search::search_error::SearchError;

verus! {

/// The read-only parts of a search prepared for one query: the graph and, per
/// edge list, the constraint and traversal models, with the shared state, cost,
/// termination and label models.
pub struct SearchInstance<T: TraversalModel, C: ConstraintModel, L: LabelModel> {
    pub graph: Graph,
    pub constraint_models: Vec<C>,
    pub traversal_models: Vec<T>,
    pub state_model: StateModel,
    pub cost_model: CostModel,
    pub termination_model: TerminationModel,
    pub label_model: L,
    pub default_edge_list: Option<usize>,
}

impl<T: TraversalModel, C: ConstraintModel, L: LabelModel> SearchInstance<T, C, L> {
    /// The edge list whose traversal model estimates costs between vertices.
    pub open spec fn estimation_index(&self) -> int {
        match self.default_edge_list {
            Some(i) => i as int,
            None => 0,
        }
    }

    /// The traversal model used for estimates, where no edge is traversed: that of
    /// the default edge list, or of the first edge list when none is set.
    pub fn get_traversal_estimation_model(&self) -> (m: &T)
        requires
            self.estimation_index() < self.traversal_models@.len(),
        ensures
            *m == self.traversal_models@[self.estimation_index()],
    {
        let i: usize = match self.default_edge_list {
            Some(i) => i,
            None => 0,
        };
        &self.traversal_models[i]
    }

    /// The constraint model of an edge list, or an internal error when there is none.
    pub fn get_constraint_model(&self, edge_list_id: &EdgeListId) -> (r: Result<&C, SearchError>)
        ensures
            edge_list_id.0 < self.constraint_models@.len() ==> (r matches Ok(m) && *m == self.constraint_models@[edge_list_id.0 as int]),
            edge_list_id.0 >= self.constraint_models@.len() ==> r matches Err(SearchError::InternalError(_)),
    {
        if edge_list_id.0 < self.constraint_models.len() {
            Ok(&self.constraint_models[edge_list_id.0])
        } else {
            Err(SearchError::InternalError(
                "during search, attempting to retrieve constraint models for an edge list that does not exist".to_owned()))
        }
    }

    /// The traversal model of an edge list, or an internal error when there is none.
    pub fn get_traversal_model(&self, edge_list_id: &EdgeListId) -> (r: Result<&T, SearchError>)
        ensures
            edge_list_id.0 < self.traversal_models@.len() ==> (r matches Ok(m) && *m == self.traversal_models@[edge_list_id.0 as int]),
            edge_list_id.0 >= self.traversal_models@.len() ==> r matches Err(SearchError::InternalError(_)),
    {
        if edge_list_id.0 < self.traversal_models.len() {
            Ok(&self.traversal_models[edge_list_id.0])
        } else {
            Err(SearchError::InternalError(
                "during search, attempting to retrieve traversal models for an edge list that does not exist".to_owned()))
        }
    }
}

/// The read-only parts of a search prepared for one query, with per-edge-list
/// frontier, access and traversal models.
pub struct SearchInstance2<F: FrontierModel, A: AccessModel, T: TraversalModel, L: LabelModel> {
    pub graph: Graph,
    pub frontier_models: Vec<F>,
    pub access_models: Vec<A>,
    pub traversal_models: Vec<T>,
    pub state_model: StateModel,
    pub cost_model: CostModel,
    pub termination_model: TerminationModel,
    pub label_model: L,
}

impl<F: FrontierModel, A: AccessModel, T: TraversalModel, L: LabelModel> SearchInstance2<F, A, T, L> {
    /// The frontier model of an edge list, or an internal error when there is none.
    pub fn get_frontier_model(&self, edge_list_id: &EdgeListId) -> (r: Result<&F, SearchError>)
        ensures
            edge_list_id.0 < self.frontier_models@.len() ==> (r matches Ok(m) && *m == self.frontier_models@[edge_list_id.0 as int]),
            edge_list_id.0 >= self.frontier_models@.len() ==> r matches Err(SearchError::InternalError(_)),
    {
        if edge_list_id.0 < self.frontier_models.len() {
            Ok(&self.frontier_models[edge_list_id.0])
        } else {
            Err(SearchError::InternalError(
                "during search, attempting to retrieve frontier models for an edge list that does not exist".to_owned()))
        }
    }

    /// The access model of an edge list, or an internal error when there is none.
    pub fn get_access_model(&self, edge_list_id: &EdgeListId) -> (r: Result<&A, SearchError>)
        ensures
            edge_list_id.0 < self.access_models@.len() ==> (r matches Ok(m) && *m == self.access_models@[edge_list_id.0 as int]),
            edge_list_id.0 >= self.access_models@.len() ==> r matches Err(SearchError::InternalError(_)),
    {
        if edge_list_id.0 < self.access_models.len() {
            Ok(&self.access_models[edge_list_id.0])
        } else {
            Err(SearchError::InternalError(
                "during search, attempting to retrieve access models for an edge list that does not exist".to_owned()))
        }
    }

    /// The traversal model of an edge list, or an internal error when there is none.
    pub fn get_traversal_model(&self, edge_list_id: &EdgeListId) -> (r: Result<&T, SearchError>)
        ensures
            edge_list_id.0 < self.traversal_models@.len() ==> (r matches Ok(m) && *m == self.traversal_models@[edge_list_id.0 as int]),
            edge_list_id.0 >= self.traversal_models@.len() ==> r matches Err(SearchError::InternalError(_)),
    {
        if edge_list_id.0 < self.traversal_models.len() {
            Ok(&self.traversal_models[edge_list_id.0])
        } else {
            Err(SearchError::InternalError(
                "during search, attempting to retrieve traversal models for an edge list that does not exist".to_owned()))
        }
    }
}

} // verus!
