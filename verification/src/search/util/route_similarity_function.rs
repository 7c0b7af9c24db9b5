use vstd::prelude::*;
use crate::network::Graph;
use crate::search::edge_traversal::EdgeTraversal;
use crate::search::search_error::SearchError;

verus! {

/// Decides whether two routes are too similar for both to be offered as alternatives.
pub trait RouteSimilarity {
    /// Whether this function may answer `r` when asked whether routes `a` and `b` of
    /// `graph` are similar; an implementation that does not say allows any answer.
    open spec fn similarity_answer(&self, a: Seq<EdgeTraversal>, b: Seq<EdgeTraversal>, graph: Graph, r: Result<bool, SearchError>) -> bool {
        true
    }

    /// Whether routes `a` and `b` of `graph` are similar.
    fn test_similarity(&self, a: &Vec<EdgeTraversal>, b: &Vec<EdgeTraversal>, graph: &Graph) -> (r: Result<bool, SearchError>)
        ensures
            self.similarity_answer(a@, b@, *graph, r);
}

/// The similarity function that finds every pair of routes similar.
#[derive(Clone, Copy, Debug, PartialEq, Eq, Structural)]
pub struct AcceptAll;

impl Default for AcceptAll {
    fn default() -> (s: AcceptAll) {
        AcceptAll
    }
}

impl RouteSimilarity for AcceptAll {
    /// Every pair of routes is similar.
    open spec fn similarity_answer(&self, a: Seq<EdgeTraversal>, b: Seq<EdgeTraversal>, graph: Graph, r: Result<bool, SearchError>) -> bool {
        r == Ok::<bool, SearchError>(true)
    }

    fn test_similarity(&self, a: &Vec<EdgeTraversal>, b: &Vec<EdgeTraversal>, graph: &Graph) -> (r: Result<bool, SearchError>)
        ensures
            r == Ok::<bool, SearchError>(true),
    {
        Ok(true)
    }
}

} // verus!
