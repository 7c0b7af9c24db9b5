use vstd::prelude::*;
use crate::search::search_tree::SearchTree;

verus! {

/// Errors raised by a termination model.
#[derive(Debug, PartialEq, Eq, Structural)]
pub enum TerminationModelError {
    /// the model was configured with a limit it cannot use
    InvalidLimit(u64),
}

/// Rules that stop a search early.
#[derive(Debug, Clone, Copy, PartialEq, Eq, Structural)]
pub enum TerminationModel {
    /// stop once the search has run `limit` iterations
    IterationsLimit { limit: u64 },
    /// stop once the search tree holds `limit` nodes
    SolutionSizeLimit { limit: usize },
}

/// Whether the model stops a search whose tree holds `tree_size` nodes after `iterations` iterations.
pub open spec fn stops(m: TerminationModel, tree_size: nat, iterations: u64) -> bool {
    match m {
        TerminationModel::IterationsLimit { limit } => iterations >= limit,
        TerminationModel::SolutionSizeLimit { limit } => tree_size >= limit,
    }
}

impl TerminationModel {
    /// `None` while the search may go on; otherwise an explanation of why it stops.
    pub fn continue_or_explain(&self, solution: &SearchTree, iterations: u64) -> (r: Option<String>)
        ensures
            r is Some <==> stops(*self, solution@.nodes.len(), iterations),
    {
        match self {
            TerminationModel::IterationsLimit { limit } => {
                if iterations >= *limit {
                    Some("exceeded iteration limit".to_owned())
                } else {
                    None
                }
            },
            TerminationModel::SolutionSizeLimit { limit } => {
                if solution.len() >= *limit {
                    Some("exceeded solution size limit".to_owned())
                } else {
                    None
                }
            },
        }
    }
}

} // verus!
