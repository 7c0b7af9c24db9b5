use routee_compass_core::cost::StateVariable;
use routee_compass_core::label::Label;
use routee_compass_core::model::constraint::NoRestriction;
use routee_compass_core::model::cost_model::CostModel;
use routee_compass_core::model::label_model::VertexLabelModel;
use routee_compass_core::model::state::StateModel;
use routee_compass_core::model::termination::TerminationModel;
use routee_compass_core::model::traversal::DistanceTraversalModel;
use routee_compass_core::network::{Edge, EdgeId, EdgeList, EdgeListId, Graph, NetworkError, Vertex, VertexId};
use routee_compass_core::search::a_star::a_star_algorithm::{
    add_costs, estimate_traversal_cost, run_edge_oriented, run_vertex_oriented,
};
use routee_compass_core::search::a_star::a_star_ops::route_contains_loop;
use routee_compass_core::search::a_star::bidirectional_ops;
use routee_compass_core::search::a_star::frontier_instance::FrontierInstance;
use routee_compass_core::search::backtrack::{label_edge_oriented_route, label_oriented_route};
use routee_compass_core::search::direction::Direction;
use routee_compass_core::search::edge_traversal::EdgeTraversal;
use routee_compass_core::search::search_error::SearchError;
use routee_compass_core::search::search_instance::SearchInstance;
use routee_compass_core::search::search_tree::SearchTree;
use routee_compass_core::search::search_tree_branch::SearchTreeBranch;
use routee_compass_core::priority_queue::InternalPriorityQueue;
use routee_compass_core::cost::Cost;

/// (0) <---> (1)
///  ^         ^
///  |         |
///  v         v
/// (3) <---> (2)
/// distances in meters; all vertices at the origin, so the estimate is zero.
fn build_mock_graph() -> Graph {
    let vertices = vec![
        Vertex::new(0, 0, 0),
        Vertex::new(1, 0, 0),
        Vertex::new(2, 0, 0),
        Vertex::new(3, 0, 0),
    ];
    let edges = vec![
        Edge::new(0, 0, 0, 1, 10000),
        Edge::new(0, 1, 1, 0, 10000),
        Edge::new(0, 2, 1, 2, 2000),
        Edge::new(0, 3, 2, 1, 2000),
        Edge::new(0, 4, 2, 3, 1000),
        Edge::new(0, 5, 3, 2, 1000),
        Edge::new(0, 6, 3, 0, 2000),
        Edge::new(0, 7, 0, 3, 2000),
    ];
    let mut adj = vec![Vec::new(); vertices.len()];
    let mut rev = vec![Vec::new(); vertices.len()];
    for edge in &edges {
        adj[edge.src_vertex_id.0].push((EdgeListId(0), edge.edge_id, edge.dst_vertex_id));
        rev[edge.dst_vertex_id.0].push((EdgeListId(0), edge.edge_id, edge.src_vertex_id));
    }
    Graph { vertices, edge_lists: vec![EdgeList(edges)], adj, rev }
}

fn build_instance(limit: u64) -> SearchInstance<DistanceTraversalModel, NoRestriction, VertexLabelModel> {
    SearchInstance {
        graph: build_mock_graph(),
        constraint_models: vec![NoRestriction {}],
        traversal_models: vec![DistanceTraversalModel::new(0)],
        state_model: StateModel::new(vec![StateVariable(0)]),
        cost_model: CostModel::new(vec![1]),
        termination_model: TerminationModel::IterationsLimit { limit },
        label_model: VertexLabelModel {},
        default_edge_list: None,
    }
}

#[test]
fn test_e2e_queries() {
    let queries: Vec<(VertexId, VertexId, Vec<EdgeId>)> = vec![
        // 0 -[7]-> 3 -[5]-> 2 -[3]-> 1
        (VertexId(0), VertexId(1), vec![EdgeId(7), EdgeId(5), EdgeId(3)]),
        // 0 -[7]-> 3
        (VertexId(0), VertexId(3), vec![EdgeId(7)]),
        // 1 -[2]-> 2 -[4]-> 3 -[6]-> 0
        (VertexId(1), VertexId(0), vec![EdgeId(2), EdgeId(4), EdgeId(6)]),
        (VertexId(1), VertexId(2), vec![EdgeId(2)]), // 1 -[2]-> 2
        (VertexId(2), VertexId(3), vec![EdgeId(4)]), // 2 -[4]-> 3
    ];
    let si = build_instance(20);
    for (o, d, expected_route) in queries {
        let result = run_vertex_oriented(o, Some(d), &Direction::Forward, false, &si).unwrap();
        let route = result.tree.backtrack(d).unwrap();
        let route_edges: Vec<EdgeId> = route.iter().map(|r| r.edge_id).collect();
        assert_eq!(route_edges, expected_route, "route did not match expected: {route_edges:?} {expected_route:?}");
    }
}

#[test]
fn test_a_star_matches_dijkstra_with_zero_estimate() {
    let si = build_instance(20);
    let result = run_vertex_oriented(VertexId(0), Some(VertexId(1)), &Direction::Forward, true, &si).unwrap();
    let route = result.tree.backtrack(VertexId(1)).unwrap();
    let edges: Vec<EdgeId> = route.iter().map(|r| r.edge_id).collect();
    assert_eq!(edges, vec![EdgeId(7), EdgeId(5), EdgeId(3)]);
    assert_eq!(route.last().unwrap().cost.objective_cost, Cost(5000));
}

#[test]
fn test_a_star_estimates_from_the_reached_vertex() {
    // vertices on a line, as far apart as their shortest routes: the estimate from each
    // reached vertex to the target differs, and the search still finds the shortest route
    let mut si = build_instance(20);
    for (i, (x, y)) in [(0i64, 0i64), (5000, 0), (3000, 0), (2000, 0)].iter().enumerate() {
        si.graph.vertices[i] = Vertex::new(i, *x, *y);
    }
    let result = run_vertex_oriented(VertexId(0), Some(VertexId(1)), &Direction::Forward, true, &si).unwrap();
    let route = result.tree.backtrack(VertexId(1)).unwrap();
    let edges: Vec<EdgeId> = route.iter().map(|r| r.edge_id).collect();
    assert_eq!(edges, vec![EdgeId(7), EdgeId(5), EdgeId(3)]);
}

#[test]
fn test_target_equal_to_source_gives_empty_result() {
    let si = build_instance(20);
    let result = run_vertex_oriented(VertexId(2), Some(VertexId(2)), &Direction::Reverse, false, &si).unwrap();
    assert!(result.tree.is_empty());
    assert_eq!(result.tree.direction(), Direction::Forward);
    assert_eq!(result.iterations, 0);
    assert!(result.terminated.is_none());
    // with A* and no estimation model at all, the same empty result comes back at once
    let mut no_models = build_instance(20);
    no_models.traversal_models = vec![];
    let result = run_vertex_oriented(VertexId(2), Some(VertexId(2)), &Direction::Forward, true, &no_models).unwrap();
    assert!(result.tree.is_empty());
}

#[test]
fn test_search_without_target_reaches_every_vertex() {
    let si = build_instance(20);
    let result = run_vertex_oriented(VertexId(0), None, &Direction::Forward, false, &si).unwrap();
    assert!(result.terminated.is_none());
    assert_eq!(result.tree.len(), 4);
    assert_eq!(result.tree.root(), Some(&Label::Vertex(VertexId(0))));
    let route = result.tree.backtrack(VertexId(2)).unwrap();
    let edges: Vec<EdgeId> = route.iter().map(|r| r.edge_id).collect();
    assert_eq!(edges, vec![EdgeId(7), EdgeId(5)]);
}

#[test]
fn test_reverse_search_backtracks_toward_target() {
    let si = build_instance(20);
    // a reverse search from 1 finds how each vertex reaches 1
    let result = run_vertex_oriented(VertexId(1), Some(VertexId(0)), &Direction::Reverse, false, &si).unwrap();
    let route = result.tree.backtrack(VertexId(0)).unwrap();
    let edges: Vec<EdgeId> = route.iter().map(|r| r.edge_id).collect();
    assert_eq!(edges, vec![EdgeId(7), EdgeId(5), EdgeId(3)]);
}

#[test]
fn test_iteration_limit_terminates_search() {
    let si = build_instance(1);
    let result = run_vertex_oriented(VertexId(0), Some(VertexId(1)), &Direction::Forward, false, &si).unwrap();
    assert_eq!(result.iterations, 1);
    assert_eq!(result.terminated.as_deref(), Some("exceeded iteration limit"));
}

#[test]
fn test_no_path_error_names_endpoints() {
    let mut si = build_instance(20);
    // an isolated vertex 4
    si.graph.vertices.push(Vertex::new(4, 0, 0));
    si.graph.adj.push(Vec::new());
    si.graph.rev.push(Vec::new());
    let result = run_vertex_oriented(VertexId(0), Some(VertexId(4)), &Direction::Forward, false, &si);
    match result {
        Err(SearchError::NoPathExistsBetweenVertices(s, t, n)) => {
            assert_eq!(s, VertexId(0));
            assert_eq!(t, VertexId(4));
            assert_eq!(n, 4);
        }
        other => panic!("unexpected result {:?}", other.map(|r| r.iterations)),
    }
}

#[test]
fn test_estimate_traversal_cost_unknown_vertex() {
    let si = build_instance(20);
    let tree = SearchTree::new(Direction::Forward);
    let state = vec![StateVariable(0)];
    match estimate_traversal_cost(VertexId(9), VertexId(0), &state, &tree, &si) {
        Err(SearchError::NetworkFailure { source }) => assert_eq!(source, NetworkError::VertexNotFound(VertexId(9))),
        _ => panic!("expected a network failure"),
    }
    match estimate_traversal_cost(VertexId(0), VertexId(8), &state, &tree, &si) {
        Err(SearchError::NetworkFailure { source }) => assert_eq!(source, NetworkError::VertexNotFound(VertexId(8))),
        _ => panic!("expected a network failure"),
    }
}

#[test]
fn test_estimate_traversal_cost_uses_chebyshev_distance() {
    let mut si = build_instance(20);
    si.graph.vertices[1] = Vertex::new(1, 300, -400);
    let tree = SearchTree::new(Direction::Forward);
    let state = vec![StateVariable(7)];
    let cost = estimate_traversal_cost(VertexId(0), VertexId(1), &state, &tree, &si).unwrap();
    assert_eq!(cost.objective_cost, Cost(407));
    assert_eq!(cost.total_cost, Cost(407));
}

#[test]
fn test_run_edge_oriented_routes_between_edges() {
    let si = build_instance(20);
    // from the end of edge 0 (vertex 1) to the start of edge 6 (vertex 3)
    let result = run_edge_oriented((EdgeListId(0), EdgeId(0)), Some((EdgeListId(0), EdgeId(6))), &Direction::Forward, false, &si).unwrap();
    let route = result.tree.backtrack(VertexId(3)).unwrap();
    let edges: Vec<EdgeId> = route.iter().map(|r| r.edge_id).collect();
    assert_eq!(edges, vec![EdgeId(2), EdgeId(4)]);
    let same = run_edge_oriented((EdgeListId(0), EdgeId(3)), Some((EdgeListId(0), EdgeId(3))), &Direction::Forward, false, &si).unwrap();
    assert!(same.tree.is_empty());
    match run_edge_oriented((EdgeListId(0), EdgeId(42)), None, &Direction::Forward, false, &si) {
        Err(SearchError::NetworkFailure { source }) => assert_eq!(source, NetworkError::EdgeNotFound(EdgeListId(0), EdgeId(42))),
        _ => panic!("expected a network failure"),
    }
}

#[test]
fn test_add_costs_clamps() {
    assert_eq!(add_costs(Cost(2), Cost(3)), Cost(5));
    assert_eq!(add_costs(Cost(i64::MAX), Cost(1)), Cost(i64::MAX));
    assert_eq!(add_costs(Cost(i64::MIN), Cost(-1)), Cost(i64::MIN));
}

fn traversal(edge_id: usize) -> EdgeTraversal {
    EdgeTraversal {
        edge_list_id: EdgeListId(0),
        edge_id: EdgeId(edge_id),
        cost: Default::default(),
        result_state: vec![StateVariable(0)],
    }
}

#[test]
fn test_route_contains_loop() {
    let si = build_instance(20);
    // 0 -[7]-> 3 -[5]-> 2 : no vertex left twice
    let route = vec![traversal(7), traversal(5)];
    assert_eq!(route_contains_loop(&route, &si).unwrap(), false);
    // 0 -[0]-> 1 -[1]-> 0 -[7]-> 3 : vertex 0 left twice
    let looped = vec![traversal(0), traversal(1), traversal(7)];
    assert_eq!(route_contains_loop(&looped, &si).unwrap(), true);
    assert_eq!(bidirectional_ops::route_contains_loop(&looped, &si).unwrap(), true);
    let missing = vec![traversal(7), traversal(99)];
    match route_contains_loop(&missing, &si) {
        Err(SearchError::NetworkFailure { source }) => assert_eq!(source, NetworkError::EdgeNotFound(EdgeListId(0), EdgeId(99))),
        _ => panic!("expected a network failure"),
    }
}

#[test]
fn test_reorient_reverse_route() {
    let si = build_instance(20);
    let fwd = vec![EdgeTraversal { result_state: vec![StateVariable(2000)], ..traversal(7) }];
    let rev = vec![traversal(3), traversal(5)];
    let route = bidirectional_ops::reorient_reverse_route(&fwd, &rev, &si).unwrap();
    let edges: Vec<EdgeId> = route.iter().map(|r| r.edge_id).collect();
    assert_eq!(edges, vec![EdgeId(5), EdgeId(3)]);
    assert_eq!(route[0].result_state, vec![StateVariable(3000)]);
    assert_eq!(route[1].result_state, vec![StateVariable(5000)]);
    assert_eq!(route[1].cost.objective_cost, Cost(5000));
    let from_start = bidirectional_ops::reorient_reverse_route(&vec![], &vec![traversal(7)], &si).unwrap();
    assert_eq!(from_start[0].result_state, vec![StateVariable(2000)]);
}

#[test]
fn test_pop_new_cases() {
    let tree = SearchTree::new(Direction::Forward);
    let initial = vec![StateVariable(0)];
    let mut frontier: InternalPriorityQueue<Label> = InternalPriorityQueue::new();
    match FrontierInstance::pop_new(&mut frontier, VertexId(0), Some(VertexId(3)), &tree, &initial) {
        Err(SearchError::NoPathExistsBetweenVertices(s, t, n)) => {
            assert_eq!((s, t, n), (VertexId(0), VertexId(3), 0));
        }
        _ => panic!("expected no path"),
    }
    assert!(FrontierInstance::pop_new(&mut frontier, VertexId(0), None, &tree, &initial).unwrap().is_none());
    frontier.push(Label::Vertex(VertexId(3)), Cost(4));
    frontier.push(Label::Vertex(VertexId(0)), Cost(1));
    let f = FrontierInstance::pop_new(&mut frontier, VertexId(0), Some(VertexId(3)), &tree, &initial).unwrap().unwrap();
    assert_eq!(f.prev_label, Label::Vertex(VertexId(0)));
    assert!(f.prev_edge.is_none());
    assert_eq!(f.prev_state, initial);
    assert!(FrontierInstance::pop_new(&mut frontier, VertexId(0), Some(VertexId(3)), &tree, &initial).unwrap().is_none());
    assert!(frontier.is_empty());
}

fn branch(terminal: usize, edge_id: usize) -> SearchTreeBranch {
    SearchTreeBranch { terminal_label: Label::Vertex(VertexId(terminal)), edge_traversal: traversal(edge_id) }
}

#[test]
fn test_label_oriented_route() {
    // 0 -[7]-> 3 -[5]-> 2
    let solution = vec![
        (Label::Vertex(VertexId(3)), branch(0, 7)),
        (Label::Vertex(VertexId(2)), branch(3, 5)),
    ];
    let route = label_oriented_route(VertexId(0), VertexId(2), &solution).unwrap();
    let edges: Vec<EdgeId> = route.iter().map(|r| r.edge_id).collect();
    assert_eq!(edges, vec![EdgeId(7), EdgeId(5)]);
    assert!(label_oriented_route(VertexId(0), VertexId(2), &vec![]).unwrap().is_empty());
    assert!(matches!(label_oriented_route(VertexId(0), VertexId(1), &solution), Err(SearchError::InternalError(_))));
    let looped = vec![
        (Label::Vertex(VertexId(1)), branch(2, 3)),
        (Label::Vertex(VertexId(2)), branch(1, 2)),
    ];
    assert!(matches!(label_oriented_route(VertexId(0), VertexId(1), &looped), Err(SearchError::InternalError(_))));
    let graph = build_mock_graph();
    // from the end of edge 6 (vertex 0) to the start of edge 3 (vertex 2)
    let route = label_edge_oriented_route((EdgeListId(0), EdgeId(6)), (EdgeListId(0), EdgeId(3)), &solution, &graph).unwrap();
    assert_eq!(route.len(), 2);
}

#[test]
fn test_full_search_records_least_distances() {
    // from vertex 0 over the whole graph: 0 -[7]-> 3 (2 km), then 3 -[5]-> 2 (1 km),
    // then 2 -[3]-> 1 (2 km); the direct edge 0 -[0]-> 1 (10 km) is never the best
    let si = build_instance(20);
    let result = run_vertex_oriented(VertexId(0), None, &Direction::Forward, false, &si).unwrap();
    assert!(result.terminated.is_none());
    for (v, expected) in [(1usize, 5000i64), (2, 3000), (3, 2000)] {
        let node = result.tree.get(&Label::Vertex(VertexId(v))).unwrap();
        let cost = node.incoming_edge().unwrap().cost.objective_cost;
        assert_eq!(cost, Cost(expected), "vertex {v}");
    }
}
