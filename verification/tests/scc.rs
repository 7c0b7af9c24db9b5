use routee_compass_core::component::{
    all_strongly_connected_componenets, depth_first_search, largest_strongly_connected_component, reverse_depth_first_search,
};
use std::collections::HashSet;
use routee_compass_core::network::{Edge, EdgeList, EdgeListId, Graph, Vertex, VertexId};

fn build_mock_graph() -> Graph {
    let vertices = vec![
        Vertex::new(0, 0, 0),
        Vertex::new(1, 1, 1),
        Vertex::new(2, 2, 2),
        Vertex::new(3, 3, 3),
        Vertex::new(4, 4, 4),
    ];

    let edges = vec![
        Edge::new(0, 0, 0, 1, 10),
        Edge::new(0, 1, 1, 0, 10),
        Edge::new(0, 2, 1, 2, 10),
        Edge::new(0, 3, 2, 1, 10),
        Edge::new(0, 4, 2, 3, 10),
        Edge::new(0, 5, 3, 2, 10),
        Edge::new(0, 6, 3, 0, 10),
        Edge::new(0, 7, 0, 3, 10),
        Edge::new(0, 8, 0, 2, 10),
        Edge::new(0, 9, 1, 3, 10),
        Edge::new(0, 10, 2, 0, 10),
        Edge::new(0, 11, 3, 1, 10),
        Edge::new(0, 12, 4, 4, 10),
    ];

    let mut adj = vec![Vec::new(); vertices.len()];
    let mut rev = vec![Vec::new(); vertices.len()];
    for edge in &edges {
        adj[edge.src_vertex_id.0].push((EdgeListId(0), edge.edge_id, edge.dst_vertex_id));
        rev[edge.dst_vertex_id.0].push((EdgeListId(0), edge.edge_id, edge.src_vertex_id));
    }

    Graph {
        vertices,
        edge_lists: vec![EdgeList(edges)],
        adj,
        rev,
    }
}

#[test]
fn test_largest_strongly_connected_component() {
    let graph = build_mock_graph();
    let component = largest_strongly_connected_component(&graph).unwrap();
    assert_eq!(component.len(), 4);
    assert!(component.contains(&VertexId(0)));
    assert!(component.contains(&VertexId(1)));
    assert!(component.contains(&VertexId(2)));
    assert!(component.contains(&VertexId(3)));
}

#[test]
fn test_all_strongly_connected_components() {
    let graph = build_mock_graph();
    let mut components = all_strongly_connected_componenets(&graph).unwrap();
    components.sort_by_key(|c| c.len());
    assert_eq!(components.len(), 2);
    assert_eq!(components[1].len(), 4);
    assert_eq!(components[0].len(), 1);
}

fn chain_graph() -> Graph {
    // 0 -> 1 -> 2 -> 3, and 4 -> 2
    let vertices = (0..5).map(|i| Vertex::new(i, 0, 0)).collect::<Vec<_>>();
    let edges = vec![Edge::new(0, 0, 0, 1, 1), Edge::new(0, 1, 1, 2, 1), Edge::new(0, 2, 2, 3, 1), Edge::new(0, 3, 4, 2, 1)];
    let mut adj = vec![Vec::new(); vertices.len()];
    let mut rev = vec![Vec::new(); vertices.len()];
    for edge in &edges {
        adj[edge.src_vertex_id.0].push((EdgeListId(0), edge.edge_id, edge.dst_vertex_id));
        rev[edge.dst_vertex_id.0].push((EdgeListId(0), edge.edge_id, edge.src_vertex_id));
    }
    Graph { vertices, edge_lists: vec![EdgeList(edges)], adj, rev }
}

#[test]
fn test_depth_first_search_adds_what_is_reached_around_visited_vertices() {
    let graph = chain_graph();
    // with vertex 2 already visited, a search from 0 adds 0 and 1 only, in post-order
    let mut visited: HashSet<usize> = HashSet::from([2]);
    let mut stack = vec![VertexId(2)];
    depth_first_search(&graph, VertexId(0), &mut visited, &mut stack).unwrap();
    assert_eq!(stack, vec![VertexId(2), VertexId(1), VertexId(0)]);
    assert_eq!(visited, HashSet::from([0, 1, 2]));
    // along incoming edges from 3, with 1 visited: 3, 2 and 4 are added, not 0
    let mut visited: HashSet<usize> = HashSet::from([1]);
    let mut stack = vec![];
    reverse_depth_first_search(&graph, VertexId(3), &mut visited, &mut stack).unwrap();
    let added: HashSet<VertexId> = stack.iter().copied().collect();
    assert_eq!(added, HashSet::from([VertexId(3), VertexId(2), VertexId(4)]));
    assert_eq!(stack.last(), Some(&VertexId(3)));
}
