use routee_compass_core::map_matching::map_matching_error::MapMatchingError;
use routee_compass_core::map_matching::simple_map_matching::SimpleMapMatching;
use routee_compass_core::model::map::NearestSearchResult;
use routee_compass_core::cost::StateVariable;
use routee_compass_core::map_matching::edge_path::{
    dedup_edge_path, doubled_route_distance, join_segment_paths, shortest_edge_path,
};
use routee_compass_core::map_matching::stationary::{expand_stationary_matches, kept_points, stationary_groups};
use routee_compass_core::model::constraint::NoRestriction;
use routee_compass_core::model::cost_model::CostModel;
use routee_compass_core::model::label_model::VertexLabelModel;
use routee_compass_core::model::state::StateModel;
use routee_compass_core::model::termination::TerminationModel;
use routee_compass_core::model::traversal::DistanceTraversalModel;
use routee_compass_core::network::{Edge, EdgeId, EdgeList, EdgeListId, Graph, Vertex, VertexId};
use routee_compass_core::search::search_instance::SearchInstance;

#[test]
fn simple_map_matching_test_algorithm_name() {
    let alg = SimpleMapMatching::new();
    assert_eq!(alg.name(), "simple_map_matching");
}

fn edge(e: usize) -> Result<NearestSearchResult, String> {
    Ok(NearestSearchResult::NearestEdge(EdgeListId(0), EdgeId(e)))
}

#[test]
fn test_simple_matching_collapses_repeated_edges() {
    let alg = SimpleMapMatching::new();
    let answers = vec![edge(3), edge(3), edge(4), edge(3), edge(3)];
    let result = alg.match_nearest(&answers).unwrap();
    assert_eq!(result.len(), 5);
    assert_eq!(result.point_matches[2].edge_id, EdgeId(4));
    assert_eq!(
        result.matched_path,
        vec![(EdgeListId(0), EdgeId(3)), (EdgeListId(0), EdgeId(4)), (EdgeListId(0), EdgeId(3))]
    );
}

#[test]
fn test_simple_matching_empty_trace() {
    let alg = SimpleMapMatching::new();
    assert!(matches!(alg.match_nearest(&vec![]), Err(MapMatchingError::EmptyTrace)));
}

#[test]
fn test_simple_matching_rejects_vertex_answer() {
    let alg = SimpleMapMatching::new();
    let answers = vec![edge(1), Ok(NearestSearchResult::NearestVertex(VertexId(7))), edge(2)];
    match alg.match_nearest(&answers) {
        Err(MapMatchingError::PointMatchFailed { index, .. }) => assert_eq!(index, 1),
        _ => panic!("expected a point match failure"),
    }
}

#[test]
fn test_simple_matching_reports_index_error_message() {
    let alg = SimpleMapMatching::new();
    let answers = vec![edge(1), edge(1), Err(String::from("index unavailable"))];
    match alg.match_nearest(&answers) {
        Err(MapMatchingError::PointMatchFailed { index, message }) => {
            assert_eq!(index, 2);
            assert_eq!(message, "index unavailable");
        }
        _ => panic!("expected a point match failure"),
    }
}

/// (0) <---> (1)
///  ^         ^
///  |         |
///  v         v
/// (3) <---> (2)
fn build_instance() -> SearchInstance<DistanceTraversalModel, NoRestriction, VertexLabelModel> {
    let vertices = vec![Vertex::new(0, 0, 0), Vertex::new(1, 0, 0), Vertex::new(2, 0, 0), Vertex::new(3, 0, 0)];
    let edges = vec![
        Edge::new(0, 0, 0, 1, 10000),
        Edge::new(0, 1, 1, 0, 10000),
        Edge::new(0, 2, 1, 2, 2000),
        Edge::new(0, 3, 2, 1, 2000),
        Edge::new(0, 4, 2, 3, 1000),
        Edge::new(0, 5, 3, 2, 1000),
        Edge::new(0, 6, 3, 0, 2000),
        Edge::new(0, 7, 0, 3, 2000),
    ];
    let mut adj = vec![Vec::new(); vertices.len()];
    let mut rev = vec![Vec::new(); vertices.len()];
    for edge in &edges {
        adj[edge.src_vertex_id.0].push((EdgeListId(0), edge.edge_id, edge.dst_vertex_id));
        rev[edge.dst_vertex_id.0].push((EdgeListId(0), edge.edge_id, edge.src_vertex_id));
    }
    SearchInstance {
        graph: Graph { vertices, edge_lists: vec![EdgeList(edges)], adj, rev },
        constraint_models: vec![NoRestriction {}],
        traversal_models: vec![DistanceTraversalModel::new(0)],
        state_model: StateModel::new(vec![StateVariable(0)]),
        cost_model: CostModel::new(vec![1]),
        termination_model: TerminationModel::IterationsLimit { limit: 20 },
        label_model: VertexLabelModel {},
        default_edge_list: None,
    }
}

fn e(id: usize) -> (EdgeListId, EdgeId) {
    (EdgeListId(0), EdgeId(id))
}

#[test]
fn test_shortest_edge_path() {
    let si = build_instance();
    // from the end of edge 0 (vertex 1) to the start of edge 6 (vertex 3): 1 -[2]-> 2 -[4]-> 3
    assert_eq!(shortest_edge_path(e(0), e(6), &si), vec![e(0), e(2), e(4), e(6)]);
    assert_eq!(shortest_edge_path(e(3), e(3), &si), vec![e(3)]);
    // adjacent edges: the search has nothing to backtrack
    assert_eq!(shortest_edge_path(e(0), e(2), &si), vec![e(0), e(2)]);
    assert_eq!(shortest_edge_path(e(0), e(99), &si), vec![e(0), e(99)]);
}

#[test]
fn test_doubled_route_distance() {
    let si = build_instance();
    // half of edge 0, edges 2 and 4, half of edge 6
    assert_eq!(doubled_route_distance(e(0), e(6), &si), Some(2 * (2000 + 1000) + 10000 + 2000));
    assert_eq!(doubled_route_distance(e(0), e(2), &si), Some(10000 + 2000));
    assert_eq!(doubled_route_distance(e(3), e(3), &si), Some(0));
    assert_eq!(doubled_route_distance(e(0), e(99), &si), None);
    assert_eq!(doubled_route_distance(e(99), e(0), &si), None);
}

#[test]
fn test_join_segment_paths() {
    let si = build_instance();
    // edge 5 ends at vertex 2, edge 6 starts at vertex 3: edge 4 fills the gap
    let joined = join_segment_paths(&vec![vec![e(7), e(5)], vec![e(6), e(7)]], &si).unwrap();
    assert_eq!(joined, vec![e(7), e(5), e(4), e(6), e(7)]);
    // edge 7 ends where edge 6 starts
    assert_eq!(join_segment_paths(&vec![vec![e(7)], vec![e(6)]], &si).unwrap(), vec![e(7), e(6)]);
    // a repeated edge where two paths meet is kept once
    assert_eq!(join_segment_paths(&vec![vec![e(7)], vec![e(7), e(5)]], &si).unwrap(), vec![e(7), e(5)]);
    assert_eq!(join_segment_paths(&vec![vec![], vec![e(5)]], &si).unwrap(), vec![e(5)]);
    assert!(matches!(join_segment_paths(&vec![], &si), Err(MapMatchingError::InternalError(_))));
    assert!(matches!(join_segment_paths(&vec![vec![e(99)], vec![e(7)]], &si), Err(MapMatchingError::InternalError(_))));
}

#[test]
fn test_stationary_groups() {
    // points 1, 2, 3 coincide, and points 5, 6
    let stationary = vec![false, true, true, false, true];
    assert_eq!(stationary_groups(&stationary), vec![vec![1, 2, 3], vec![4, 5]]);
    let moving = vec![false, false];
    assert!(stationary_groups(&moving).is_empty());
    assert_eq!(stationary_groups(&vec![true]), vec![vec![0, 1]]);
    assert!(stationary_groups(&vec![]).is_empty());
}

#[test]
fn test_kept_points() {
    let groups = vec![vec![1, 2, 3], vec![5, 6]];
    assert_eq!(kept_points(8, &groups), vec![0, 1, 4, 5, 7]);
    assert_eq!(kept_points(0, &groups), Vec::<usize>::new());
}

#[test]
fn test_expand_stationary_matches() {
    let groups = vec![vec![1, 2, 3], vec![5, 6]];
    // kept points 0, 1, 4, 5, 7 carry the matches 'a' to 'e'
    let matches = vec!['a', 'b', 'c', 'd', 'e'];
    assert_eq!(
        expand_stationary_matches(&matches, &groups, 8),
        vec!['a', 'b', 'b', 'b', 'c', 'd', 'd', 'e']
    );
    // the walk stops when the matches are used up
    assert_eq!(expand_stationary_matches(&vec!['a', 'b'], &groups, 8), vec!['a', 'b']);
    // a left-out point before any match gets none
    assert_eq!(expand_stationary_matches(&vec!['x'], &vec![vec![3, 0]], 2), vec!['x']);
}

#[test]
fn test_dedup_edge_path() {
    let path = vec![e(1), e(1), e(2), e(1), e(1), e(1)];
    assert_eq!(dedup_edge_path(&path), vec![e(1), e(2), e(1)]);
    assert!(dedup_edge_path(&vec![]).is_empty());
}
