use vstd::prelude::*;
use crate::model::constraint::ConstraintModel;
use crate::model::cost_model::{state_cost, CostModel};
use crate::model::label_model::LabelModel;
use crate::model::traversal::TraversalModel;
use crate::cost::TraversalCost;
use crate::label::Label;
use crate::network::{EdgeId, EdgeListId, Graph, VertexId};
use crate::search::a_star::a_star_algorithm::run_edge_oriented as a_star_run_edges;
use crate::search::a_star::a_star_algorithm::{adds_edge_costs, admissible, allowed_by, estimates_add, keys_by_vertex, least_cost_estimated, least_cost_to, least_costs, least_route_estimated, least_route_to, nonneg_weights, open_walk, priced_by, reaches_open, roots_at, run_vertex_oriented as a_star_run, search_tree_valid, walk_weight};
use crate::model::termination::{stops, TerminationModel};
use crate::search::direction::Direction;
use crate::search::edge_traversal::EdgeTraversal;
use crate::search::ksp::ksp_query::KspQuery;
use crate::search::ksp::ksp_termination_criteria::KspTerminationCriteria;
use crate::search::ksp::svp::{self, svp_outcome};
use crate::search::ksp::yens::{self, pairwise_different, yens_outcome};
use crate::search::search_error::SearchError;
use crate::search::search_instance::SearchInstance;
use crate::search::search_result::{fails_on_termination, SearchAlgorithmResult, SearchResult, TerminationFailurePolicy};
use crate::search::search_tree::{backtrack_matches, empty_tree, has_vertex, SearchTree, SearchTreeError, SearchTreeView};
use crate::search::route_laws::law_route_ends_with_recorded;
use crate::search::util::route_similarity_function::RouteSimilarity;

verus! {

/// A configured search algorithm: a single-source shortest path search (Dijkstra's, or
/// A* with the cost estimate heuristic), or a k-shortest-paths search over an
/// underlying algorithm, with a route similarity filter of type `S`.
#[derive(Debug)]
pub enum SearchAlgorithm<S> {
    SingleSourceShortestPath { termination_behavior: TerminationFailurePolicy, a_star: bool },
    KspSingleVia {
        k: usize,
        underlying: Box<SearchAlgorithm<S>>,
        similarity: Option<S>,
        termination: Option<KspTerminationCriteria>,
    },
    Yens {
        k: usize,
        underlying: Box<SearchAlgorithm<S>>,
        similarity: Option<S>,
        termination: Option<KspTerminationCriteria>,
    },
}

/// Whether any search the algorithm runs uses the A* heuristic.
pub open spec fn uses_a_star<S>(alg: SearchAlgorithm<S>) -> bool
    decreases alg,
{
    match alg {
        SearchAlgorithm::SingleSourceShortestPath { a_star, .. } => a_star,
        SearchAlgorithm::KspSingleVia { underlying, .. } => uses_a_star(*underlying),
        SearchAlgorithm::Yens { underlying, .. } => uses_a_star(*underlying),
    }
}

/// What a single-source shortest path search from `src` toward `dst` gives: its one
/// tree, as the vertex-oriented search builds it, priced by the cost model `cm` and using
/// no edge that a constraint model of `models` forbids; no
/// route without a destination, else
/// the backtrack of the tree from the destination; and an early termination only when
/// the policy accepts it.
pub open spec fn sssp_outcome<C: ConstraintModel>(
    res: SearchAlgorithmResult,
    src: VertexId,
    dst: Option<VertexId>,
    direction: Direction,
    policy: TerminationFailurePolicy,
    g: Graph,
    cm: CostModel,
    models: Seq<C>,
) -> bool {
    &&& res.trees@.len() == 1
    &&& (dst == Some(src) ==> res.trees@[0]@ == empty_tree(Direction::Forward) && res.iterations == 0 && res.terminated is None)
    &&& (dst != Some(src) ==> search_tree_valid(res.trees@[0]@, g, direction, src)
        && priced_by(res.trees@[0]@, cm)
        && (g.wf() ==> allowed_by(res.trees@[0]@, g, models))
        && (res.terminated is None ==> (dst matches Some(t) ==> has_vertex(res.trees@[0]@, t))))
    &&& (res.terminated is Some ==> !fails_on_termination(policy, dst is Some))
    &&& match dst {
        None => res.routes@.len() == 0,
        Some(d) => res.routes@.len() == 1
            && backtrack_matches(res.trees@[0]@, d, Ok::<Vec<EdgeTraversal>, SearchTreeError>(res.routes@[0])),
    }
}

/// Runs a single-source shortest path search (A* when `a_star`, else Dijkstra's) from
/// `src_id`, applies the termination policy, and backtracks the route to the
/// destination when there is one.
pub fn run_sssp<T: TraversalModel, C: ConstraintModel, L: LabelModel>(
    termination_behavior: &TerminationFailurePolicy,
    a_star: bool,
    src_id: VertexId,
    dst_id_opt: Option<VertexId>,
    direction: &Direction,
    si: &SearchInstance<T, C, L>,
) -> (r: Result<SearchAlgorithmResult, SearchError>)
    requires
        a_star && dst_id_opt is Some && dst_id_opt != Some(src_id) ==> si.estimation_index() < si.traversal_models@.len(),
    ensures
        r matches Ok(res) ==> sssp_outcome(res, src_id, dst_id_opt, *direction, *termination_behavior, si.graph, si.cost_model, si.constraint_models@),
        dst_id_opt == Some(src_id) ==> r == Err::<SearchAlgorithmResult, SearchError>(SearchError::SearchTreeFailure {
            source: SearchTreeError::VertexNotFound(src_id) }),
        sssp_complete(r, src_id, dst_id_opt, *direction, a_star, *si),
{
    let search_result = match a_star_run(src_id, dst_id_opt, direction, a_star, si) {
        Ok(res) => res,
        Err(e) => return Err(e),
    };
    match termination_behavior.handle_termination(&search_result, dst_id_opt.is_some()) {
        Ok(()) => {},
        Err(e) => return Err(e),
    }
    let SearchResult { tree, iterations, terminated } = search_result;
    let routes: Vec<Vec<EdgeTraversal>> = match dst_id_opt {
        None => Vec::new(),
        Some(dst_id) => match tree.backtrack(dst_id) {
            Ok(route) => vec![route],
            Err(e) => return Err(SearchError::SearchTreeFailure { source: e }),
        },
    };
    proof {
        if si.graph.wf() && *direction == Direction::Forward && terminated is None {
            if let Some(d) = dst_id_opt {
                let t = tree@;
                let route = routes@[0];
                assert(d != src_id);
                assert(backtrack_matches(t, d, Ok::<Vec<EdgeTraversal>, SearchTreeError>(route)));
                assert forall|weight: spec_fn((EdgeListId, EdgeId)) -> int, w: Seq<(EdgeListId, EdgeId)>|
                    #![trigger adds_edge_costs(*si, weight), open_walk(si.graph, si.constraint_models@, *direction, src_id, w, d)]
                    !a_star && adds_edge_costs(*si, weight) && nonneg_weights(weight) && keys_by_vertex(*si)
                    && state_cost(si.cost_model.weights@, si.state_model.initial_values@) == 0
                    && open_walk(si.graph, si.constraint_models@, *direction, src_id, w, d)
                    implies route@.len() > 0 && route@.last().cost.objective_cost.0 <= walk_weight(weight, w) by {
                    lemma_branch_at(t, d, src_id);
                    law_route_ends_with_recorded(t, d, route);
                }
                assert forall|weight: spec_fn((EdgeListId, EdgeId)) -> int, h: spec_fn(VertexId) -> int, w: Seq<(EdgeListId, EdgeId)>|
                    #![trigger adds_edge_costs(*si, weight), estimates_add(*si, d, h), open_walk(si.graph, si.constraint_models@, *direction, src_id, w, d)]
                    a_star && adds_edge_costs(*si, weight) && nonneg_weights(weight) && keys_by_vertex(*si)
                    && estimates_add(*si, d, h) && admissible(si.graph, si.constraint_models@, *direction, d, weight, h)
                    && state_cost(si.cost_model.weights@, si.state_model.initial_values@) == 0
                    && open_walk(si.graph, si.constraint_models@, *direction, src_id, w, d)
                    && 2 * walk_weight(weight, w) < i64::MAX
                    implies route@.len() > 0 && route@.last().cost.objective_cost.0 <= walk_weight(weight, w) by {
                    lemma_branch_at(t, d, src_id);
                    law_route_ends_with_recorded(t, d, route);
                }
            }
        }
    }
    Ok(SearchAlgorithmResult { trees: vec![tree], routes, iterations, terminated })
}

/// In a tree of a search from `src` over a well-formed graph, a label of another vertex
/// is a branch.
proof fn lemma_branch_at(t: SearchTreeView, d: VertexId, src: VertexId)
    requires
        roots_at(t, src),
        d != src,
        t.nodes.contains_key(Label::Vertex(d)),
    ensures
        t.nodes[Label::Vertex(d)] is Branch,
{
    if t.nodes[Label::Vertex(d)] is Root {
        assert(Label::Vertex(d).vertex() == src);
    }
}

/// What a single-source shortest path search from `src` owes beyond its result: a
/// missing-path error only where no chain of edges that the constraint models must
/// accept leads from its source to its target; an early stop only where the termination
/// model stops (or the iteration counter is exhausted); and, without a destination and
/// not stopped early, a tree holding every vertex such a chain leads to from `src`, at
/// least cost (`least_costs`); and, with a destination and not stopped early, a tree
/// holding the destination at least cost (`least_cost_to` without the A* heuristic,
/// `least_cost_estimated` with it), and, over a well-formed graph searched forward, a
/// route to it at least cost (`least_route_to`, `least_route_estimated`).
pub open spec fn sssp_complete<T: TraversalModel, C: ConstraintModel, L: LabelModel>(
    r: Result<SearchAlgorithmResult, SearchError>,
    src: VertexId,
    dst: Option<VertexId>,
    direction: Direction,
    a_star: bool,
    si: SearchInstance<T, C, L>,
) -> bool {
    let g = si.graph;
    let models = si.constraint_models@;
    let tm = si.termination_model;
    &&& r matches Err(SearchError::NoPathExistsBetweenVertices(s, t, _)) ==> !reaches_open(g, models, direction, s, t)
    &&& r matches Ok(res) ==> (res.terminated is Some ==> res.trees@.len() == 1
        && (stops(tm, res.trees@[0]@.nodes.len(), res.iterations) || res.iterations == u64::MAX))
    &&& dst is None ==> (r matches Ok(res) ==> (res.terminated is None ==> res.trees@.len() == 1
        && forall|v: VertexId| #[trigger] reaches_open(g, models, direction, src, v) ==> v == src || has_vertex(res.trees@[0]@, v)))
    &&& dst is None ==> (r matches Ok(res) ==> (res.terminated is None ==> least_costs(res.trees@[0]@, si, direction, src)))
    &&& !a_star ==> (dst matches Some(d) ==> (r matches Ok(res) ==> (res.terminated is None ==> res.trees@.len() == 1
        && least_cost_to(res.trees@[0]@, si, direction, src, d))))
    &&& a_star ==> (dst matches Some(d) ==> (r matches Ok(res) ==> (res.terminated is None ==> res.trees@.len() == 1
        && least_cost_estimated(res.trees@[0]@, si, direction, src, d))))
    &&& g.wf() && direction == Direction::Forward ==> (dst matches Some(d) ==> (r matches Ok(res) ==> (res.terminated is None
        ==> res.routes@.len() == 1 && (!a_star ==> least_route_to(res.routes@[0]@, si, direction, src, d))
            && (a_star ==> least_route_estimated(res.routes@[0]@, si, direction, src, d)))))
}

impl<S: RouteSimilarity + Clone + Default> SearchAlgorithm<S> {
    /// Runs the algorithm from vertex `src_id`, toward `dst_id_opt` when given; the
    /// k-shortest-paths algorithms need a destination, and read the number of routes
    /// from the user `query` (field "k"), defaulting to their configured k.
    pub fn run_vertex_oriented<T: TraversalModel + Clone, C: ConstraintModel + Clone, L: LabelModel + Clone>(
        &self,
        src_id: VertexId,
        dst_id_opt: Option<VertexId>,
        query: &serde_json::Value,
        direction: &Direction,
        si: &SearchInstance<T, C, L>,
    ) -> (r: Result<SearchAlgorithmResult, SearchError>)
        requires
            uses_a_star(*self) && !(*self is SingleSourceShortestPath && (dst_id_opt is None || dst_id_opt == Some(src_id)))
                ==> si.estimation_index() < si.traversal_models@.len(),
        ensures
            match *self {
                SearchAlgorithm::SingleSourceShortestPath { termination_behavior, a_star } =>
                    (r matches Ok(res) ==> sssp_outcome(res, src_id, dst_id_opt, *direction, termination_behavior, si.graph, si.cost_model, si.constraint_models@))
                    && (dst_id_opt == Some(src_id) ==> r == Err::<SearchAlgorithmResult, SearchError>(SearchError::SearchTreeFailure {
                        source: SearchTreeError::VertexNotFound(src_id) }))
                    && sssp_complete(r, src_id, dst_id_opt, *direction, a_star, *si),
                SearchAlgorithm::KspSingleVia { .. } =>
                    (dst_id_opt is None ==> r matches Err(SearchError::BuildError(_)))
                    && (r matches Ok(res) ==> (dst_id_opt matches Some(d) && svp_outcome(res, src_id, d, si.graph))),
                SearchAlgorithm::Yens { .. } =>
                    (dst_id_opt is None ==> r matches Err(SearchError::BuildError(_)))
                    && (r matches Ok(res) ==> yens_outcome(res.routes@))
                    && (si.graph.wf() ==> (r matches Ok(res) ==> pairwise_different(res.routes@))),
            },
        decreases *self, 0int,
    {
        match self {
            SearchAlgorithm::SingleSourceShortestPath { termination_behavior, a_star } => {
                run_sssp(termination_behavior, *a_star, src_id, dst_id_opt, direction, si)
            },
            SearchAlgorithm::KspSingleVia { k, underlying, similarity, termination } => {
                let dst_id = match dst_id_opt {
                    Some(d) => d,
                    None => return Err(SearchError::BuildError("attempting to run KSP algorithm without destination".to_owned())),
                };
                let sim_fn: S = match similarity {
                    Some(s) => s.clone(),
                    None => S::default(),
                };
                let term_fn: KspTerminationCriteria = match termination {
                    Some(t) => *t,
                    None => KspTerminationCriteria::Exact,
                };
                let ksp_query = match KspQuery::new(src_id, dst_id, query, *k) {
                    Ok(q) => q,
                    Err(e) => return Err(e),
                };
                svp::run(&ksp_query, &term_fn, &sim_fn, si, underlying)
            },
            SearchAlgorithm::Yens { k, underlying, similarity, termination } => {
                let dst_id = match dst_id_opt {
                    Some(d) => d,
                    None => return Err(SearchError::BuildError("attempting to run KSP algorithm without destination".to_owned())),
                };
                let sim_fn: S = match similarity {
                    Some(s) => s.clone(),
                    None => S::default(),
                };
                let term_fn: KspTerminationCriteria = match termination {
                    Some(t) => *t,
                    None => KspTerminationCriteria::Exact,
                };
                let ksp_query = match KspQuery::new(src_id, dst_id, query, *k) {
                    Ok(q) => q,
                    Err(e) => return Err(e),
                };
                yens::run(&ksp_query, &term_fn, &sim_fn, si, underlying)
            },
        }
    }

    /// Runs the algorithm between edges: from the end of edge `src`, toward the start of
    /// edge `dst_opt` when given. A single-source shortest path search backtracks its
    /// route from the start of the destination edge; the k-shortest-paths algorithms add
    /// the source and destination edges to their routes.
    pub fn run_edge_oriented<T: TraversalModel + Clone, C: ConstraintModel + Clone, L: LabelModel + Clone>(
        &self,
        src: (EdgeListId, EdgeId),
        dst_opt: Option<(EdgeListId, EdgeId)>,
        query: &serde_json::Value,
        direction: &Direction,
        si: &SearchInstance<T, C, L>,
    ) -> (r: Result<SearchAlgorithmResult, SearchError>)
        requires
            uses_a_star(*self) && !(*self is SingleSourceShortestPath && (dst_opt is None || dst_opt == Some(src)))
                ==> si.estimation_index() < si.traversal_models@.len(),
        ensures
            si.graph.edge_at(src.0, src.1) is None ==> r is Err,
            (self is KspSingleVia || self is Yens) ==> (r matches Ok(res) ==> edge_route_outcome(res, src, dst_opt, si.graph)),
            self matches SearchAlgorithm::SingleSourceShortestPath { .. } ==> (r matches Ok(res) ==> res.trees@.len() == 1
                && match dst_opt {
                    None => res.routes@.len() == 0,
                    Some(d) => res.routes@.len() == 1 && (si.graph.edge_at(d.0, d.1) matches Some(e)
                        && backtrack_matches(res.trees@[0]@, e.src_vertex_id, Ok::<Vec<EdgeTraversal>, SearchTreeError>(res.routes@[0]))),
                }),
            self is SingleSourceShortestPath && dst_opt == Some(src) ==> match si.graph.edge_at(src.0, src.1) {
                Some(e) => r == Err::<SearchAlgorithmResult, SearchError>(SearchError::SearchTreeFailure {
                    source: SearchTreeError::VertexNotFound(e.src_vertex_id) }),
                None => r is Err,
            },
            self is SingleSourceShortestPath && dst_opt is None ==> match si.graph.edge_at(src.0, src.1) {
                Some(e1) => sssp_complete(r, e1.dst_vertex_id, None, *direction, uses_a_star(*self), *si),
                None => true,
            },
            self is SingleSourceShortestPath ==> (r matches Ok(res) ==> (res.terminated is Some ==> res.trees@.len() == 1
                && (stops(si.termination_model, res.trees@[0]@.nodes.len(), res.iterations) || res.iterations == u64::MAX))),
            self is SingleSourceShortestPath ==> (r matches Err(SearchError::NoPathExistsBetweenVertices(s, t, _))
                ==> !reaches_open(si.graph, si.constraint_models@, *direction, s, t)),
            (self is KspSingleVia || self is Yens) && dst_opt == Some(src) && si.graph.edge_at(src.0, src.1) is Some
                ==> (r matches Ok(res) && res.routes@.len() == 0 && res.trees@.len() == 0) || r matches Err(SearchError::LabelFailure { .. }),
    {
        match self {
            SearchAlgorithm::SingleSourceShortestPath { termination_behavior, a_star } => {
                let search_result = match a_star_run_edges(src, dst_opt, direction, *a_star, si) {
                    Ok(res) => res,
                    Err(e) => return Err(e),
                };
                match termination_behavior.handle_termination(&search_result, dst_opt.is_some()) {
                    Ok(()) => {},
                    Err(e) => return Err(e),
                }
                let SearchResult { tree, iterations, terminated } = search_result;
                let routes: Vec<Vec<EdgeTraversal>> = match dst_opt {
                    None => Vec::new(),
                    Some(dst_id) => match tree.backtrack_edge_oriented_route(dst_id, &si.graph) {
                        Ok(route) => vec![route],
                        Err(e) => return Err(SearchError::SearchTreeFailure { source: e }),
                    },
                };
                Ok(SearchAlgorithmResult { trees: vec![tree], routes, iterations, terminated })
            },
            SearchAlgorithm::KspSingleVia { .. } => run_edge_oriented(src, dst_opt, query, direction, self, si),
            SearchAlgorithm::Yens { .. } => run_edge_oriented(src, dst_opt, query, direction, self, si),
        }
    }
}

/// What an edge-oriented run composed from a vertex-oriented one gives: every route
/// starts with the source edge and, when there is a destination edge, has at least one
/// more traversal and ends with it.
pub open spec fn edge_route_outcome(
    res: SearchAlgorithmResult,
    source: (EdgeListId, EdgeId),
    target: Option<(EdgeListId, EdgeId)>,
    g: Graph,
) -> bool {
    forall|i: int| 0 <= i < res.routes@.len() ==> {
        let route = (#[trigger] res.routes@[i])@;
        &&& route.len() >= 1
        &&& route[0].edge_list_id == source.0 && route[0].edge_id == source.1
        &&& match target {
            None => true,
            Some(t) => route.len() >= 2 && route.last().edge_list_id == t.0 && route.last().edge_id == t.1,
        }
    }
}

/// Whether an edge is given and the graph lacks it.
pub open spec fn edge_missing(g: Graph, edge: Option<(EdgeListId, EdgeId)>) -> bool {
    match edge {
        Some(e) => g.edge_at(e.0, e.1) is None,
        None => false,
    }
}

/// The traversal standing for an edge at either end of an edge-oriented route: no cost,
/// and the given state.
fn endpoint_traversal(edge: (EdgeListId, EdgeId), state: Vec<crate::cost::StateVariable>) -> (et: EdgeTraversal)
    ensures
        et.edge_list_id == edge.0,
        et.edge_id == edge.1,
        et.result_state@ == state@,
{
    EdgeTraversal { edge_list_id: edge.0, edge_id: edge.1, cost: TraversalCost::default(), result_state: state }
}

/// Runs `alg` between edges, through a vertex-oriented run from the end of the source
/// edge toward the start of the target edge, and composes the result with the two
/// edges: each route gains the source edge in front and the target edge at the back;
/// without a target, each tree gains the source edge when its end is missing. A search
/// from an edge to itself gives an empty result.
pub fn run_edge_oriented<T: TraversalModel + Clone, C: ConstraintModel + Clone, L: LabelModel + Clone, S: RouteSimilarity + Clone + Default>(
    source: (EdgeListId, EdgeId),
    target: Option<(EdgeListId, EdgeId)>,
    query: &serde_json::Value,
    direction: &Direction,
    alg: &SearchAlgorithm<S>,
    si: &SearchInstance<T, C, L>,
) -> (r: Result<SearchAlgorithmResult, SearchError>)
    requires
        uses_a_star(*alg) ==> si.estimation_index() < si.traversal_models@.len(),
    ensures
        si.graph.edge_at(source.0, source.1) is None ==> r == Err::<SearchAlgorithmResult, SearchError>(
            SearchError::NetworkFailure { source: si.graph.edge_error(source.0, source.1) }),
        (si.graph.edge_at(source.0, source.1) is Some && edge_missing(si.graph, target)) ==> r is Err,
        r matches Ok(res) ==> (target == Some(source) && res.routes@.len() == 0 && res.trees@.len() == 0)
            || edge_route_outcome(res, source, target, si.graph),
        target == Some(source) && si.graph.edge_at(source.0, source.1) is Some
            ==> (r matches Ok(res) && res.routes@.len() == 0 && res.trees@.len() == 0) || r matches Err(SearchError::LabelFailure { .. }),
{
    let initial_state = match si.state_model.initial_state(None) {
        Ok(s) => s,
        Err(e) => return Err(SearchError::StateFailure { source: e }),
    };
    let e1_src = match si.graph.src_vertex_id(&source.0, &source.1) {
        Ok(v) => v,
        Err(e) => return Err(SearchError::NetworkFailure { source: e }),
    };
    let e1_label = match si.label_model.label_from_state(e1_src, &initial_state, &si.state_model) {
        Ok(l) => l,
        Err(e) => return Err(SearchError::LabelFailure { source: e }),
    };
    let e1_dst = match si.graph.dst_vertex_id(&source.0, &source.1) {
        Ok(v) => v,
        Err(e) => return Err(SearchError::NetworkFailure { source: e }),
    };
    let src_state = match si.state_model.initial_state(None) {
        Ok(s) => s,
        Err(e) => return Err(SearchError::StateFailure { source: e }),
    };
    let src_et = endpoint_traversal(source, src_state);

    match target {
        None => {
            let SearchAlgorithmResult { mut trees, mut routes, iterations, terminated } =
                match alg.run_vertex_oriented(e1_dst, None, query, direction, si) {
                    Ok(res) => res,
                    Err(e) => return Err(e),
                };
            let dst_label = match si.label_model.label_from_state(e1_dst, &initial_state, &si.state_model) {
                Ok(l) => l,
                Err(e) => return Err(SearchError::LabelFailure { source: e }),
            };
            let mut new_trees: Vec<SearchTree> = Vec::new();
            while trees.len() > 0
                invariant
                    si.graph.edge_at(source.0, source.1) is Some,
                    target is None,
                decreases trees@.len(),
            {
                let mut tree = trees.remove(0);
                if !tree.contains(&dst_label) {
                    match tree.insert(e1_label, src_et.clone(), dst_label) {
                        Ok(()) => {},
                        Err(e) => return Err(SearchError::SearchTreeFailure { source: e }),
                    }
                }
                new_trees.push(tree);
            }
            let mut new_routes: Vec<Vec<EdgeTraversal>> = Vec::new();
            while routes.len() > 0
                invariant
                    si.graph.edge_at(source.0, source.1) is Some,
                    !edge_missing(si.graph, target),
                    src_et.edge_list_id == source.0,
                    src_et.edge_id == source.1,
                    forall|i: int| 0 <= i < new_routes@.len() ==> {
                        let route = (#[trigger] new_routes@[i])@;
                        route.len() >= 1 && route[0].edge_list_id == source.0 && route[0].edge_id == source.1
                    },
                decreases routes@.len(),
            {
                let mut route = routes.remove(0);
                let et = src_et.clone();
                route.insert(0, et);
                new_routes.push(route);
            }
            Ok(SearchAlgorithmResult { trees: new_trees, routes: new_routes, iterations: iterations.saturating_add(1), terminated })
        },
        Some(target_edge) => {
            let e2_src = match si.graph.src_vertex_id(&target_edge.0, &target_edge.1) {
                Ok(v) => v,
                Err(e) => return Err(SearchError::NetworkFailure { source: e }),
            };
            if source.0.0 == target_edge.0.0 && source.1.0 == target_edge.1.0 {
                return Ok(SearchAlgorithmResult::default());
            }
            let SearchAlgorithmResult { trees, mut routes, iterations, terminated } =
                match alg.run_vertex_oriented(e1_dst, Some(e2_src), query, direction, si) {
                    Ok(res) => res,
                    Err(e) => return Err(e),
                };
            if trees.len() == 0 {
                return Err(SearchError::NoPathExistsBetweenVertices(e1_dst, e2_src, 0));
            }
            let mut new_routes: Vec<Vec<EdgeTraversal>> = Vec::new();
            while routes.len() > 0
                invariant
                    si.graph.edge_at(source.0, source.1) is Some,
                    target != Some(source),
                    !edge_missing(si.graph, target),
                    src_et.edge_list_id == source.0,
                    src_et.edge_id == source.1,
                    forall|i: int| 0 <= i < new_routes@.len() ==> {
                        let route = (#[trigger] new_routes@[i])@;
                        &&& route.len() >= 2
                        &&& route[0].edge_list_id == source.0 && route[0].edge_id == source.1
                        &&& route.last().edge_list_id == target_edge.0 && route.last().edge_id == target_edge.1
                    },
                decreases routes@.len(),
            {
                let mut route = routes.remove(0);
                if route.len() == 0 {
                    return Err(SearchError::InternalError("found empty result route".to_owned()));
                }
                let final_state = route[route.len() - 1].result_state.clone();
                let dst_et = endpoint_traversal(target_edge, final_state);
                route.insert(0, src_et.clone());
                route.push(dst_et);
                new_routes.push(route);
            }
            Ok(SearchAlgorithmResult { trees, routes: new_routes, iterations: iterations.saturating_add(2), terminated })
        },
    }
}

} // verus!
