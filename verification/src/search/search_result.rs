use vstd::prelude::*;
use crate::search::direction::Direction;
use crate::search::edge_traversal::EdgeTraversal;
use crate::search::search_error::SearchError;
use crate::search::search_tree::{empty_tree, SearchTree};

verus! {

/// The outcome of one search: the tree it built, how many iterations it ran,
/// and, when it was stopped early, why.
#[derive(Debug)]
pub struct SearchResult {
    pub tree: SearchTree,
    pub iterations: u64,
    pub terminated: Option<String>,
}

impl SearchResult {
    /// The result of a search that ran until its frontier was exhausted or its target reached.
    pub fn completed(tree: SearchTree, iterations: u64) -> (r: SearchResult)
        ensures
            r.tree@ == tree@,
            r.iterations == iterations,
            r.terminated is None,
    {
        SearchResult { tree, iterations, terminated: None }
    }

    /// The result of a search stopped early by its termination model, with the reason.
    pub fn terminated(tree: SearchTree, iterations: u64, explanation: String) -> (r: SearchResult)
        ensures
            r.tree@ == tree@,
            r.iterations == iterations,
            r.terminated matches Some(s) && s@ == explanation@,
    {
        SearchResult { tree, iterations, terminated: Some(explanation) }
    }
}

impl Default for SearchResult {
    /// The result of a search that did nothing: an empty forward tree after no iteration.
    fn default() -> (r: SearchResult)
        ensures
            r.tree@ == empty_tree(Direction::Forward),
            r.iterations == 0,
            r.terminated is None,
    {
        SearchResult { tree: SearchTree::new(Direction::Forward), iterations: 0, terminated: None }
    }
}

/// The outcome of a search algorithm that may run several searches.
#[derive(Debug)]
pub struct SearchAlgorithmResult {
    pub trees: Vec<SearchTree>,
    pub routes: Vec<Vec<EdgeTraversal>>,
    pub iterations: u64,
    pub terminated: Option<String>,
}

impl Default for SearchAlgorithmResult {
    /// A result without trees or routes.
    fn default() -> (r: SearchAlgorithmResult)
        ensures
            r.trees@.len() == 0,
            r.routes@.len() == 0,
            r.iterations == 0,
            r.terminated is None,
    {
        SearchAlgorithmResult { trees: Vec::new(), routes: Vec::new(), iterations: 0, terminated: None }
    }
}

/// How a search stopped early by its termination model is treated.
#[derive(Clone, Copy, Debug, PartialEq, Eq, Structural)]
pub enum TerminationFailurePolicy {
    /// treat any early-terminated search as a routing failure
    AllTerminationsFail,
    /// treat early-terminated path searches as failures, but not searches
    /// without a destination (reachability, isochrones)
    AllowTreeTermination,
}

impl Default for TerminationFailurePolicy {
    fn default() -> (p: TerminationFailurePolicy)
        ensures
            p == TerminationFailurePolicy::AllowTreeTermination,
    {
        TerminationFailurePolicy::AllowTreeTermination
    }
}

/// Whether the policy treats an early termination as a failure.
pub open spec fn fails_on_termination(p: TerminationFailurePolicy, has_destination: bool) -> bool {
    match p {
        TerminationFailurePolicy::AllTerminationsFail => true,
        TerminationFailurePolicy::AllowTreeTermination => has_destination,
    }
}

impl TerminationFailurePolicy {
    /// An error carrying the explanation when the search was stopped early and the
    /// policy treats that as a failure; otherwise `Ok`.
    pub fn handle_termination(&self, search_result: &SearchResult, has_destination: bool) -> (r: Result<(), SearchError>)
        ensures
            match search_result.terminated {
                Some(explanation) if fails_on_termination(*self, has_destination) =>
                    r matches Err(SearchError::QueryTerminated(m)) && m@ == explanation@,
                _ => r is Ok,
            },
    {
        if let Some(explanation) = &search_result.terminated {
            let error_on_terminate = match self {
                TerminationFailurePolicy::AllTerminationsFail => true,
                TerminationFailurePolicy::AllowTreeTermination => has_destination,
            };
            if error_on_terminate {
                return Err(SearchError::QueryTerminated(explanation.clone()));
            }
        }
        Ok(())
    }
}

} // verus!
