use routee_compass_core::component::all_strongly_connected_componenets;
use routee_compass_core::cost::{Cost, StateVariable, TraversalCost};
use routee_compass_core::label::Label;
use routee_compass_core::model::constraint::NoRestriction;
use routee_compass_core::model::cost_model::CostModel;
use routee_compass_core::model::label_model::VertexLabelModel;
use routee_compass_core::model::state::StateModel;
use routee_compass_core::model::termination::TerminationModel;
use routee_compass_core::model::traversal::DistanceTraversalModel;
use routee_compass_core::network::{Edge, EdgeId, EdgeList, EdgeListId, Graph, Vertex, VertexId};
use routee_compass_core::search::a_star::a_star_algorithm::run_vertex_oriented;
use routee_compass_core::search::direction::Direction;
use routee_compass_core::search::edge_traversal::EdgeTraversal;
use routee_compass_core::search::search_instance::SearchInstance;
use routee_compass_core::search::search_tree::SearchTree;
use routee_compass_core::search::util::edge_cut_constraint_model::EdgeCutConstraintModel;
use std::collections::HashSet;

fn chain_graph() -> Graph {
    // 0 -> 1 -> 2 -> 3, 3 -> 0, 0 -> 2 (long), 4 isolated
    let vertices: Vec<Vertex> = (0..5).map(|i| Vertex::new(i, 0, 0)).collect();
    let edges = vec![
        Edge::new(0, 0, 0, 1, 5),
        Edge::new(0, 1, 1, 2, 5),
        Edge::new(0, 2, 2, 3, 5),
        Edge::new(0, 3, 3, 0, 5),
        Edge::new(0, 4, 0, 2, 50),
    ];
    let mut adj = vec![Vec::new(); vertices.len()];
    let mut rev = vec![Vec::new(); vertices.len()];
    for edge in &edges {
        adj[edge.src_vertex_id.0].push((EdgeListId(0), edge.edge_id, edge.dst_vertex_id));
        rev[edge.dst_vertex_id.0].push((EdgeListId(0), edge.edge_id, edge.src_vertex_id));
    }
    Graph { vertices, edge_lists: vec![EdgeList(edges)], adj, rev }
}

fn instance() -> SearchInstance<DistanceTraversalModel, NoRestriction, VertexLabelModel> {
    SearchInstance {
        graph: chain_graph(),
        constraint_models: vec![NoRestriction {}],
        traversal_models: vec![DistanceTraversalModel::new(0)],
        state_model: StateModel::new(vec![StateVariable(0)]),
        cost_model: CostModel::new(vec![1]),
        termination_model: TerminationModel::IterationsLimit { limit: 50 },
        label_model: VertexLabelModel {},
        default_edge_list: None,
    }
}

fn et(edge_id: usize) -> EdgeTraversal {
    EdgeTraversal {
        edge_list_id: EdgeListId(0),
        edge_id: EdgeId(edge_id),
        cost: TraversalCost { total_cost: Cost(edge_id as i64), objective_cost: Cost(edge_id as i64), cost_component: vec![] },
        result_state: vec![],
    }
}

#[test]
fn law_backtracked_route_is_connected_walk() {
    let si = instance();
    for direction in [Direction::Forward, Direction::Reverse] {
        let res = run_vertex_oriented(VertexId(0), None, &direction, false, &si).unwrap();
        for v in 1..4 {
            let route = res.tree.backtrack(VertexId(v)).unwrap();
            let edges: Vec<Edge> = route.iter().map(|e| *si.graph.get_edge(&e.edge_list_id, &e.edge_id).unwrap()).collect();
            for w in edges.windows(2) {
                assert_eq!(w[0].dst_vertex_id, w[1].src_vertex_id);
            }
            match direction {
                Direction::Forward => {
                    assert_eq!(edges.first().unwrap().src_vertex_id, VertexId(0));
                    assert_eq!(edges.last().unwrap().dst_vertex_id, VertexId(v));
                }
                Direction::Reverse => {
                    assert_eq!(edges.first().unwrap().src_vertex_id, VertexId(v));
                    assert_eq!(edges.last().unwrap().dst_vertex_id, VertexId(0));
                }
            }
        }
    }
}

#[test]
fn law_completed_search_with_target_holds_target() {
    let si = instance();
    let res = run_vertex_oriented(VertexId(1), Some(VertexId(0)), &Direction::Forward, false, &si).unwrap();
    assert!(res.terminated.is_none());
    assert!(res.tree.get_labels(VertexId(0)).is_some());
    assert_eq!(res.tree.root(), Some(&Label::Vertex(VertexId(1))));
}

#[test]
fn law_insert_then_backtrack_extends_parent_path() {
    let mut tree = SearchTree::with_root(Label::Vertex(VertexId(0)), Direction::Forward);
    tree.insert(Label::Vertex(VertexId(0)), et(1), Label::Vertex(VertexId(1))).unwrap();
    let before = tree.backtrack(VertexId(1)).unwrap();
    tree.insert(Label::Vertex(VertexId(1)), et(2), Label::Vertex(VertexId(2))).unwrap();
    let after = tree.backtrack(VertexId(2)).unwrap();
    let before_ids: Vec<EdgeId> = before.iter().map(|e| e.edge_id).collect();
    let after_ids: Vec<EdgeId> = after.iter().map(|e| e.edge_id).collect();
    assert_eq!(after_ids[..before_ids.len()], before_ids[..]);
    assert_eq!(after_ids.last(), Some(&EdgeId(2)));
    let node = tree.get(&Label::Vertex(VertexId(2))).unwrap();
    assert_eq!(node.parent_label(), Some(&Label::Vertex(VertexId(1))));
    assert_eq!(node.incoming_edge().unwrap().edge_id, EdgeId(2));
}

#[test]
fn law_tree_keeps_parents_and_children_inside() {
    let mut tree = SearchTree::new(Direction::Reverse);
    tree.insert(Label::Vertex(VertexId(5)), et(1), Label::Vertex(VertexId(6))).unwrap();
    tree.insert(Label::Vertex(VertexId(6)), et(2), Label::Vertex(VertexId(7))).unwrap();
    tree.insert(Label::Vertex(VertexId(5)), et(3), Label::Vertex(VertexId(7))).unwrap();
    assert!(tree.insert(Label::Vertex(VertexId(9)), et(4), Label::Vertex(VertexId(8))).is_err());
    assert_eq!(tree.root(), Some(&Label::Vertex(VertexId(5))));
    for (label, node) in tree.iter() {
        assert_eq!(node.label(), label);
        assert_eq!(node.direction(), Direction::Reverse);
        if let Some(p) = node.parent_label() {
            assert!(tree.contains(p));
        }
        for c in node.children() {
            assert!(tree.contains(c));
        }
    }
}

#[test]
fn law_components_partition_vertices() {
    let graph = chain_graph();
    let components = all_strongly_connected_componenets(&graph).unwrap();
    let mut seen = HashSet::new();
    for component in &components {
        assert!(!component.is_empty());
        for v in component {
            assert!(seen.insert(v.0));
        }
    }
    assert_eq!(seen.len(), 5);
}

#[test]
fn law_tree_edges_priced_by_cost_model() {
    let mut si = instance();
    si.cost_model = CostModel::new(vec![3]);
    let result = run_vertex_oriented(VertexId(0), None, &Direction::Forward, false, &si).unwrap();
    for (_, node) in result.tree.iter() {
        if let Some(et) = node.incoming_edge() {
            // one state feature, weighted 3
            assert_eq!(et.cost.objective_cost, Cost(3 * et.result_state[0].0));
            assert_eq!(et.cost.total_cost, et.cost.objective_cost);
        }
    }
}

fn reachable_from(graph: &Graph, start: usize) -> HashSet<usize> {
    let mut seen = HashSet::new();
    let mut todo = vec![start];
    while let Some(v) = todo.pop() {
        if seen.insert(v) {
            for entry in &graph.adj[v] {
                todo.push(entry.2 .0);
            }
        }
    }
    seen
}

#[test]
fn law_components_are_strongly_connected() {
    let graph = chain_graph();
    let components = all_strongly_connected_componenets(&graph).unwrap();
    let reach: Vec<HashSet<usize>> = (0..graph.vertices.len()).map(|v| reachable_from(&graph, v)).collect();
    for component in &components {
        let members: HashSet<usize> = component.iter().map(|v| v.0).collect();
        for a in &members {
            for u in 0..graph.vertices.len() {
                let same = reach[*a].contains(&u) && reach[u].contains(a);
                assert_eq!(same, members.contains(&u));
            }
        }
    }
    // 0, 1, 2, 3 form a cycle; 4 stands alone
    assert_eq!(components.len(), 2);
}

#[test]
fn law_search_never_uses_forbidden_edge() {
    let base = instance();
    let mut cut = HashSet::new();
    cut.insert(1usize); // 1 -> 2
    let si = SearchInstance {
        graph: base.graph.clone(),
        constraint_models: vec![EdgeCutConstraintModel::new(NoRestriction {}, cut)],
        traversal_models: base.traversal_models.clone(),
        state_model: base.state_model.clone(),
        cost_model: base.cost_model.clone(),
        termination_model: base.termination_model,
        label_model: VertexLabelModel {},
        default_edge_list: None,
    };
    let result = run_vertex_oriented(VertexId(0), None, &Direction::Forward, false, &si).unwrap();
    for (_, node) in result.tree.iter() {
        if let Some(et) = node.incoming_edge() {
            assert_ne!(et.edge_id, EdgeId(1));
        }
    }
    // vertex 2 is then reached over the long edge 0 -> 2
    let route = result.tree.backtrack(VertexId(2)).unwrap();
    let edges: Vec<EdgeId> = route.iter().map(|r| r.edge_id).collect();
    assert_eq!(edges, vec![EdgeId(4)]);
}
