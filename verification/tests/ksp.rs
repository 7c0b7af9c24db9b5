use routee_compass_core::cost::StateVariable;
use routee_compass_core::model::constraint::NoRestriction;
use routee_compass_core::model::cost_model::CostModel;
use routee_compass_core::model::label_model::VertexLabelModel;
use routee_compass_core::model::state::StateModel;
use routee_compass_core::model::termination::TerminationModel;
use routee_compass_core::model::traversal::DistanceTraversalModel;
use routee_compass_core::network::{Edge, EdgeId, EdgeList, EdgeListId, Graph, Vertex, VertexId};
use routee_compass_core::search::direction::Direction;
use routee_compass_core::search::edge_traversal::EdgeTraversal;
use routee_compass_core::search::ksp::ksp_query::{k_from_field, KspQuery};
use routee_compass_core::search::ksp::ksp_termination_criteria::KspTerminationCriteria;
use routee_compass_core::search::ksp::svp::test_id_similarity;
use routee_compass_core::search::ksp::yens::{consider_candidate, get_first_route, same_path, select_round, spur_cut_edges};
use routee_compass_core::search::ksp::svp::svp_routes;
use routee_compass_core::search::search_algorithm::SearchAlgorithm;
use routee_compass_core::search::search_error::SearchError;
use routee_compass_core::search::search_tree::SearchTreeError;
use routee_compass_core::search::search_instance::SearchInstance;
use routee_compass_core::search::search_result::{SearchAlgorithmResult, TerminationFailurePolicy};
use routee_compass_core::search::util::route_similarity_function::{AcceptAll, RouteSimilarity};

#[derive(Clone, Default)]
struct NeverSimilar;

impl RouteSimilarity for NeverSimilar {
    fn test_similarity(&self, _a: &Vec<EdgeTraversal>, _b: &Vec<EdgeTraversal>, _g: &Graph) -> Result<bool, SearchError> {
        Ok(false)
    }
}

fn build_mock_graph() -> Graph {
    let vertices = vec![Vertex::new(0, 0, 0), Vertex::new(1, 0, 0), Vertex::new(2, 0, 0), Vertex::new(3, 0, 0)];
    let edges = vec![
        Edge::new(0, 0, 0, 1, 10000),
        Edge::new(0, 1, 1, 0, 10000),
        Edge::new(0, 2, 1, 2, 2000),
        Edge::new(0, 3, 2, 1, 2000),
        Edge::new(0, 4, 2, 3, 1000),
        Edge::new(0, 5, 3, 2, 1000),
        Edge::new(0, 6, 3, 0, 2000),
        Edge::new(0, 7, 0, 3, 2000),
    ];
    let mut adj = vec![Vec::new(); vertices.len()];
    let mut rev = vec![Vec::new(); vertices.len()];
    for edge in &edges {
        adj[edge.src_vertex_id.0].push((EdgeListId(0), edge.edge_id, edge.dst_vertex_id));
        rev[edge.dst_vertex_id.0].push((EdgeListId(0), edge.edge_id, edge.src_vertex_id));
    }
    Graph { vertices, edge_lists: vec![EdgeList(edges)], adj, rev }
}

fn build_instance() -> SearchInstance<DistanceTraversalModel, NoRestriction, VertexLabelModel> {
    SearchInstance {
        graph: build_mock_graph(),
        constraint_models: vec![NoRestriction {}],
        traversal_models: vec![DistanceTraversalModel::new(0)],
        state_model: StateModel::new(vec![StateVariable(0)]),
        cost_model: CostModel::new(vec![1]),
        termination_model: TerminationModel::IterationsLimit { limit: 100 },
        label_model: VertexLabelModel {},
        default_edge_list: None,
    }
}

fn dijkstra<S>() -> Box<SearchAlgorithm<S>> {
    Box::new(SearchAlgorithm::SingleSourceShortestPath {
        termination_behavior: TerminationFailurePolicy::AllowTreeTermination,
        a_star: false,
    })
}

fn edge_ids(route: &Vec<EdgeTraversal>) -> Vec<EdgeId> {
    route.iter().map(|e| e.edge_id).collect()
}

#[test]
fn test_terminate_search() {
    assert!(KspTerminationCriteria::Exact.terminate_search(3, 3));
    assert!(!KspTerminationCriteria::Exact.terminate_search(3, 2));
    let m = KspTerminationCriteria::MaxIteration { max: 5 };
    let f = KspTerminationCriteria::Factor { factor: 3 };
    assert!(!m.terminate_search(2, 2));
    assert!(m.terminate_search(2, 5));
    assert!(!f.terminate_search(2, 2));
    assert!(!f.terminate_search(2, 5));
    assert!(f.terminate_search(2, 6));
    assert_eq!(KspTerminationCriteria::default(), KspTerminationCriteria::Exact);
}

#[test]
fn test_ksp_query_reads_k() {
    let with_k: serde_json::Value = serde_json::from_str("{\"k\": 4}").unwrap();
    let without_k: serde_json::Value = serde_json::from_str("{}").unwrap();
    let bad_k: serde_json::Value = serde_json::from_str("{\"k\": \"four\"}").unwrap();
    assert_eq!(KspQuery::new(VertexId(0), VertexId(1), &with_k, 2).unwrap().k, 4);
    assert_eq!(KspQuery::new(VertexId(0), VertexId(1), &without_k, 2).unwrap().k, 2);
    assert!(matches!(KspQuery::new(VertexId(0), VertexId(1), &bad_k, 2), Err(SearchError::BuildError(_))));
    assert_eq!(k_from_field(None, 3).unwrap(), 3);
    assert_eq!(k_from_field(Some(Some(7)), 3).unwrap(), 7);
    assert!(matches!(k_from_field(Some(None), 3), Err(SearchError::BuildError(_))));
}

fn et(edge_id: usize) -> EdgeTraversal {
    EdgeTraversal { edge_list_id: EdgeListId(0), edge_id: EdgeId(edge_id), cost: Default::default(), result_state: vec![] }
}

#[test]
fn test_route_id_comparisons() {
    let a = vec![et(1), et(2)];
    let b = vec![EdgeTraversal { edge_list_id: EdgeListId(5), ..et(1) }, et(2)];
    let c = vec![et(1), et(3)];
    assert!(test_id_similarity(&a, &b));
    assert!(!test_id_similarity(&a, &c));
    assert!(!test_id_similarity(&a, &vec![et(1)]));
    assert!(same_path(&a, &b));
    assert!(!same_path(&a, &c));
}

#[test]
fn test_get_first_route() {
    let empty = SearchAlgorithmResult::default();
    assert!(matches!(get_first_route(&empty), Err(SearchError::InternalError(_))));
    let res = SearchAlgorithmResult { trees: vec![], routes: vec![vec![et(4)]], iterations: 0, terminated: None };
    assert_eq!(edge_ids(get_first_route(&res).unwrap()), vec![EdgeId(4)]);
}

#[test]
fn test_sssp_algorithm_returns_route() {
    let si = build_instance();
    let alg: SearchAlgorithm<AcceptAll> = *dijkstra();
    let query = serde_json::Value::Null;
    let res = alg.run_vertex_oriented(VertexId(0), Some(VertexId(1)), &query, &Direction::Forward, &si).unwrap();
    assert_eq!(res.trees.len(), 1);
    assert_eq!(res.routes.len(), 1);
    assert_eq!(edge_ids(&res.routes[0]), vec![EdgeId(7), EdgeId(5), EdgeId(3)]);
    let tree_only = alg.run_vertex_oriented(VertexId(0), None, &query, &Direction::Forward, &si).unwrap();
    assert!(tree_only.routes.is_empty());
}

#[test]
fn test_ksp_without_destination_is_a_build_error() {
    let si = build_instance();
    let alg: SearchAlgorithm<NeverSimilar> =
        SearchAlgorithm::KspSingleVia { k: 2, underlying: dijkstra(), similarity: None, termination: None };
    let query = serde_json::Value::Null;
    assert!(matches!(
        alg.run_vertex_oriented(VertexId(0), None, &query, &Direction::Forward, &si),
        Err(SearchError::BuildError(_))
    ));
}

#[test]
fn test_single_via_paths_alternatives() {
    let si = build_instance();
    let alg: SearchAlgorithm<NeverSimilar> =
        SearchAlgorithm::KspSingleVia { k: 3, underlying: dijkstra(), similarity: Some(NeverSimilar), termination: None };
    let query = serde_json::Value::Null;
    let res = alg.run_vertex_oriented(VertexId(0), Some(VertexId(1)), &query, &Direction::Forward, &si).unwrap();
    assert_eq!(res.trees.len(), 2);
    assert!(!res.routes.is_empty() && res.routes.len() <= 3);
    assert_eq!(edge_ids(&res.routes[0]), vec![EdgeId(7), EdgeId(5), EdgeId(3)]);
    for i in 0..res.routes.len() {
        for j in (i + 1)..res.routes.len() {
            assert_ne!(edge_ids(&res.routes[i]), edge_ids(&res.routes[j]));
        }
    }
    // every route that is accepted as similar is dropped: only the shortest path stays
    let strict: SearchAlgorithm<AcceptAll> =
        SearchAlgorithm::KspSingleVia { k: 3, underlying: dijkstra(), similarity: None, termination: None };
    let res = strict.run_vertex_oriented(VertexId(0), Some(VertexId(1)), &query, &Direction::Forward, &si).unwrap();
    assert_eq!(res.routes.len(), 1);
}

#[test]
fn test_yens_alternatives() {
    let si = build_instance();
    let alg: SearchAlgorithm<NeverSimilar> =
        SearchAlgorithm::Yens { k: 2, underlying: dijkstra(), similarity: Some(NeverSimilar), termination: None };
    let query = serde_json::Value::Null;
    let res = alg.run_vertex_oriented(VertexId(0), Some(VertexId(1)), &query, &Direction::Forward, &si).unwrap();
    assert_eq!(res.routes.len(), 2);
    assert_eq!(edge_ids(&res.routes[0]), vec![EdgeId(7), EdgeId(5), EdgeId(3)]);
    // the alternative deviates after the first edge, where edge 5 is cut
    assert_eq!(edge_ids(&res.routes[1]), vec![EdgeId(7), EdgeId(6), EdgeId(0)]);
}

#[test]
fn test_edge_oriented_ksp_adds_endpoint_edges() {
    let si = build_instance();
    let alg: SearchAlgorithm<NeverSimilar> =
        SearchAlgorithm::KspSingleVia { k: 1, underlying: dijkstra(), similarity: None, termination: None };
    let query = serde_json::Value::Null;
    // from the end of edge 6 (vertex 0) to the start of edge 1 (vertex 1)
    let res = alg
        .run_edge_oriented((EdgeListId(0), EdgeId(6)), Some((EdgeListId(0), EdgeId(1))), &query, &Direction::Forward, &si)
        .unwrap();
    assert_eq!(res.routes.len(), 1);
    assert_eq!(edge_ids(&res.routes[0]), vec![EdgeId(6), EdgeId(7), EdgeId(5), EdgeId(3), EdgeId(1)]);
    let sssp: SearchAlgorithm<NeverSimilar> = *dijkstra();
    let res = sssp
        .run_edge_oriented((EdgeListId(0), EdgeId(6)), Some((EdgeListId(0), EdgeId(1))), &query, &Direction::Forward, &si)
        .unwrap();
    assert_eq!(edge_ids(&res.routes[0]), vec![EdgeId(7), EdgeId(5), EdgeId(3)]);
}

#[test]
fn test_yens_spur_search_failure_is_returned() {
    // the third round searches from vertex 3 with every way back to vertex 1 cut
    let si = build_instance();
    let alg: SearchAlgorithm<NeverSimilar> =
        SearchAlgorithm::Yens { k: 3, underlying: dijkstra(), similarity: Some(NeverSimilar), termination: None };
    let query = serde_json::Value::Null;
    let res = alg.run_vertex_oriented(VertexId(0), Some(VertexId(1)), &query, &Direction::Forward, &si);
    assert!(matches!(res, Err(SearchError::NoPathExistsBetweenVertices(VertexId(3), VertexId(1), _))));
}

fn build_ladder_instance() -> SearchInstance<DistanceTraversalModel, NoRestriction, VertexLabelModel> {
    let vertices = (0..5).map(|i| Vertex::new(i, 0, 0)).collect::<Vec<_>>();
    let edges = vec![
        Edge::new(0, 0, 0, 1, 1000),
        Edge::new(0, 1, 1, 2, 1000),
        Edge::new(0, 2, 2, 3, 1000),
        Edge::new(0, 3, 1, 3, 5000),
        Edge::new(0, 4, 1, 4, 1000),
        Edge::new(0, 5, 4, 3, 2000),
    ];
    let mut adj = vec![Vec::new(); vertices.len()];
    let mut rev = vec![Vec::new(); vertices.len()];
    for edge in &edges {
        adj[edge.src_vertex_id.0].push((EdgeListId(0), edge.edge_id, edge.dst_vertex_id));
        rev[edge.dst_vertex_id.0].push((EdgeListId(0), edge.edge_id, edge.src_vertex_id));
    }
    let mut si = build_instance();
    si.graph = Graph { vertices, edge_lists: vec![EdgeList(edges)], adj, rev };
    si
}

#[test]
fn test_yens_routes_are_pairwise_different() {
    let si = build_ladder_instance();
    let alg: SearchAlgorithm<NeverSimilar> =
        SearchAlgorithm::Yens { k: 3, underlying: dijkstra(), similarity: Some(NeverSimilar), termination: None };
    let query = serde_json::Value::Null;
    let res = alg.run_vertex_oriented(VertexId(0), Some(VertexId(3)), &query, &Direction::Forward, &si).unwrap();
    assert_eq!(res.routes.len(), 3);
    assert_eq!(edge_ids(&res.routes[0]), vec![EdgeId(0), EdgeId(1), EdgeId(2)]);
    assert_eq!(edge_ids(&res.routes[1]), vec![EdgeId(0), EdgeId(4), EdgeId(5)]);
    assert_eq!(edge_ids(&res.routes[2]), vec![EdgeId(0), EdgeId(3)]);
    for i in 0..res.routes.len() {
        for j in (i + 1)..res.routes.len() {
            assert_ne!(edge_ids(&res.routes[i]), edge_ids(&res.routes[j]));
        }
    }
}

#[test]
fn test_termination_criteria_descriptions() {
    assert_eq!(KspTerminationCriteria::Exact.description(), "terminate with up to k routes found");
    assert_eq!(KspTerminationCriteria::MaxIteration { max: 12 }.description(), "terminate with 12 routes found");
    assert_eq!(KspTerminationCriteria::Factor { factor: 3 }.description(), "terminate with k*3 routes found");
}

#[test]
fn test_edge_traversal_description() {
    let mut t = et(42);
    t.cost.total_cost = routee_compass_core::cost::Cost(-7);
    assert_eq!(t.description(), "edge 42 cost:-7 state:[]");
    t.result_state = vec![StateVariable(10), StateVariable(-3)];
    assert_eq!(t.description(), "edge 42 cost:-7 state:[StateVariable(10), StateVariable(-3)]");
    assert_eq!(t.description(), format!("edge 42 cost:-7 state:{:?}", t.result_state));
}

fn is_missing_vertex(r: &Result<SearchAlgorithmResult, SearchError>, v: usize) -> bool {
    matches!(r, Err(SearchError::SearchTreeFailure { source: SearchTreeError::VertexNotFound(x) }) if x.0 == v)
}

#[test]
fn test_search_to_its_own_source_has_no_route() {
    let si = build_instance();
    let query = serde_json::Value::Null;
    let sssp: SearchAlgorithm<NeverSimilar> = *dijkstra();
    let r = sssp.run_vertex_oriented(VertexId(2), Some(VertexId(2)), &query, &Direction::Forward, &si);
    assert!(is_missing_vertex(&r, 2));
    let yens: SearchAlgorithm<NeverSimilar> =
        SearchAlgorithm::Yens { k: 2, underlying: dijkstra(), similarity: None, termination: None };
    let r = yens.run_vertex_oriented(VertexId(2), Some(VertexId(2)), &query, &Direction::Forward, &si);
    assert!(is_missing_vertex(&r, 2));
    let svp: SearchAlgorithm<NeverSimilar> =
        SearchAlgorithm::KspSingleVia { k: 2, underlying: dijkstra(), similarity: None, termination: None };
    let r = svp.run_vertex_oriented(VertexId(2), Some(VertexId(2)), &query, &Direction::Forward, &si);
    assert!(is_missing_vertex(&r, 2));
}

#[test]
fn test_edge_search_to_its_own_source_edge() {
    let si = build_instance();
    let query = serde_json::Value::Null;
    let e = (EdgeListId(0), EdgeId(4));
    // the tree of the search from edge 4 to itself stays empty: backtracking from vertex 2 fails
    let sssp: SearchAlgorithm<NeverSimilar> = *dijkstra();
    let r = sssp.run_edge_oriented(e, Some(e), &query, &Direction::Forward, &si);
    assert!(is_missing_vertex(&r, 2));
    let yens: SearchAlgorithm<NeverSimilar> =
        SearchAlgorithm::Yens { k: 2, underlying: dijkstra(), similarity: None, termination: None };
    let res = yens.run_edge_oriented(e, Some(e), &query, &Direction::Forward, &si).unwrap();
    assert!(res.routes.is_empty() && res.trees.is_empty());
}

#[test]
fn test_consider_candidate_keeps_the_cheapest_dissimilar_route() {
    let g = build_mock_graph();
    let accepted = vec![vec![et(1), et(2)]];
    let mut cheap = et(3);
    cheap.cost.total_cost = routee_compass_core::cost::Cost(4);
    let candidate = vec![cheap];
    // a dissimilar candidate replaces an empty best
    let best = consider_candidate(&accepted, &candidate, None, &NeverSimilar, &g).unwrap().unwrap();
    assert_eq!(edge_ids(&best.0), vec![EdgeId(3)]);
    assert_eq!(best.1 .0, 4);
    // a dearer best is replaced, a cheaper one stays
    let dear = (vec![et(5)], routee_compass_core::cost::Cost(9));
    let best = consider_candidate(&accepted, &candidate, Some(dear), &NeverSimilar, &g).unwrap().unwrap();
    assert_eq!(edge_ids(&best.0), vec![EdgeId(3)]);
    let cheaper = (vec![et(5)], routee_compass_core::cost::Cost(1));
    let best = consider_candidate(&accepted, &candidate, Some(cheaper), &NeverSimilar, &g).unwrap().unwrap();
    assert_eq!(edge_ids(&best.0), vec![EdgeId(5)]);
    // a candidate found similar to every accepted route never enters
    assert!(consider_candidate(&accepted, &candidate, None, &AcceptAll, &g).unwrap().is_none());
}

fn priced(edge_id: usize, cost: i64) -> EdgeTraversal {
    let mut t = et(edge_id);
    t.cost.total_cost = routee_compass_core::cost::Cost(cost);
    t
}

#[test]
fn test_select_round_takes_the_first_cheapest_dissimilar_candidate() {
    let g = build_mock_graph();
    let accepted = vec![vec![et(1)]];
    let cands = vec![vec![priced(2, 9)], vec![priced(3, 4)], vec![priced(4, 4)]];
    let best = select_round(&accepted, &cands, &NeverSimilar, &g).unwrap().unwrap();
    assert_eq!(edge_ids(&best.0), vec![EdgeId(3)]);
    assert_eq!(best.1 .0, 4);
    assert!(select_round(&accepted, &cands, &AcceptAll, &g).unwrap().is_none());
    assert!(select_round(&accepted, &vec![], &NeverSimilar, &g).unwrap().is_none());
}

#[test]
fn test_spur_cut_edges_cuts_the_next_edge_of_routes_sharing_the_root() {
    let accepted = vec![vec![et(1), et(2), et(3)], vec![et(1), et(5), et(6)], vec![et(7), et(8)], vec![et(1)]];
    let mut cut = spur_cut_edges(&accepted, &vec![et(1)], 1);
    cut.sort();
    assert_eq!(cut, vec![2, 5]);
    assert!(spur_cut_edges(&accepted, &vec![et(9)], 1).is_empty());
}

#[test]
fn test_svp_routes_needs_one_tree_per_search() {
    let si = build_instance();
    let query_json = serde_json::Value::Null;
    let query = KspQuery::new(VertexId(0), VertexId(1), &query_json, 2).unwrap();
    let empty = SearchAlgorithmResult::default();
    let r = svp_routes(empty, SearchAlgorithmResult::default(), &query, &KspTerminationCriteria::Exact, &NeverSimilar, &si);
    assert!(matches!(r, Err(SearchError::InternalError(_))));
}
