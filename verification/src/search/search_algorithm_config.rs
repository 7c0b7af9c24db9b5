use vstd::prelude::*;
use crate::search::ksp::ksp_termination_criteria::KspTerminationCriteria;
use crate::search::search_algorithm::SearchAlgorithm;
use crate::search::search_result::TerminationFailurePolicy;

verus! {

/// How a search algorithm is configured: Dijkstra's or A* with an optional termination
/// policy, or a k-shortest-paths search (single via paths, or Yen's) over an underlying
/// configuration, with an optional route similarity filter of type `S`.
#[derive(Debug)]
pub enum SearchAlgorithmConfig<S> {
    Dijkstras { termination_behavior: Option<TerminationFailurePolicy> },
    AStar { termination_behavior: Option<TerminationFailurePolicy> },
    KspSingleVia {
        k: usize,
        underlying: Box<SearchAlgorithmConfig<S>>,
        similarity: Option<S>,
        termination: Option<KspTerminationCriteria>,
    },
    Yens {
        k: usize,
        underlying: Box<SearchAlgorithmConfig<S>>,
        similarity: Option<S>,
        termination: Option<KspTerminationCriteria>,
    },
}

/// The termination policy configured, or the default policy when none is.
pub open spec fn policy_or_default(p: Option<TerminationFailurePolicy>) -> TerminationFailurePolicy {
    match p {
        Some(p) => p,
        None => TerminationFailurePolicy::AllowTreeTermination,
    }
}

/// The algorithm a configuration describes: Dijkstra's is the single-source search
/// without the A* heuristic, A* the one with it; the k-shortest-paths configurations
/// keep their parameters and describe their underlying algorithm in turn.
pub open spec fn algorithm_of<S>(c: SearchAlgorithmConfig<S>) -> SearchAlgorithm<S>
    decreases c,
{
    match c {
        SearchAlgorithmConfig::Dijkstras { termination_behavior } => SearchAlgorithm::SingleSourceShortestPath {
            termination_behavior: policy_or_default(termination_behavior),
            a_star: false,
        },
        SearchAlgorithmConfig::AStar { termination_behavior } => SearchAlgorithm::SingleSourceShortestPath {
            termination_behavior: policy_or_default(termination_behavior),
            a_star: true,
        },
        SearchAlgorithmConfig::KspSingleVia { k, underlying, similarity, termination } => SearchAlgorithm::KspSingleVia {
            k,
            underlying: Box::new(algorithm_of(*underlying)),
            similarity,
            termination,
        },
        SearchAlgorithmConfig::Yens { k, underlying, similarity, termination } => SearchAlgorithm::Yens {
            k,
            underlying: Box::new(algorithm_of(*underlying)),
            similarity,
            termination,
        },
    }
}

/// The termination policy configured, or the default policy when none is.
fn configured_policy(p: Option<TerminationFailurePolicy>) -> (r: TerminationFailurePolicy)
    ensures
        r == policy_or_default(p),
{
    match p {
        Some(p) => p,
        None => TerminationFailurePolicy::default(),
    }
}

impl<S> SearchAlgorithm<S> {
    /// The search algorithm that a configuration describes.
    pub fn from_config(config: SearchAlgorithmConfig<S>) -> (a: SearchAlgorithm<S>)
        ensures
            a == algorithm_of(config),
        decreases config,
    {
        match config {
            SearchAlgorithmConfig::Dijkstras { termination_behavior } => SearchAlgorithm::SingleSourceShortestPath {
                termination_behavior: configured_policy(termination_behavior),
                a_star: false,
            },
            SearchAlgorithmConfig::AStar { termination_behavior } => SearchAlgorithm::SingleSourceShortestPath {
                termination_behavior: configured_policy(termination_behavior),
                a_star: true,
            },
            SearchAlgorithmConfig::KspSingleVia { k, underlying, similarity, termination } => SearchAlgorithm::KspSingleVia {
                k,
                underlying: Box::new(Self::from_config(*underlying)),
                similarity,
                termination,
            },
            SearchAlgorithmConfig::Yens { k, underlying, similarity, termination } => SearchAlgorithm::Yens {
                k,
                underlying: Box::new(Self::from_config(*underlying)),
                similarity,
                termination,
            },
        }
    }
}

} // verus!
