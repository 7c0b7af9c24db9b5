use routee_compass_core::cost::{Cost, TraversalCost};
use routee_compass_core::label::Label;
use routee_compass_core::network::{EdgeId, EdgeListId, VertexId};
use routee_compass_core::search::direction::Direction;
use routee_compass_core::search::edge_traversal::EdgeTraversal;
use routee_compass_core::search::search_tree::{SearchTree, SearchTreeError};
use std::collections::HashSet;

fn create_test_edge_traversal(edge_id: usize, cost: i64) -> EdgeTraversal {
    EdgeTraversal {
        edge_id: EdgeId(edge_id),
        edge_list_id: EdgeListId(0),
        cost: TraversalCost {
            total_cost: Cost::new(cost),
            objective_cost: Cost::new(cost),
            cost_component: Vec::new(),
        },
        result_state: vec![],
    }
}

fn create_test_label(vertex_id: usize) -> Label {
    Label::Vertex(VertexId(vertex_id))
}

#[test]
fn test_new_empty_tree() {
    let tree = SearchTree::new(Direction::Forward);
    assert!(tree.is_empty());
    assert_eq!(tree.len(), 0);
    assert_eq!(tree.direction(), Direction::Forward);
    assert!(tree.root().is_none());
}

#[test]
fn test_tree_with_root() {
    let root_label = create_test_label(0);
    let tree = SearchTree::with_root(root_label.clone(), Direction::Forward);

    assert!(!tree.is_empty());
    assert_eq!(tree.len(), 1);
    assert_eq!(tree.root(), Some(&root_label));
    assert!(tree.contains(&root_label));

    let root_node = tree.get(&root_label).unwrap();
    assert!(root_node.is_root());
    assert_eq!(root_node.vertex_id(), &VertexId(0));
    assert!(root_node.children().is_empty());
}

#[test]
fn test_insert_child_nodes() {
    let root_label = create_test_label(0);
    let mut tree = SearchTree::with_root(root_label.clone(), Direction::Forward);

    // Insert first child
    let child1_label = create_test_label(1);
    let child1_traversal = create_test_edge_traversal(1, 10);
    tree.insert(
        root_label.clone(),
        child1_traversal.clone(),
        child1_label.clone(),
    )
    .unwrap();

    // Insert second child
    let child2_label = create_test_label(2);
    let child2_traversal = create_test_edge_traversal(2, 15);
    tree.insert(
        root_label.clone(),
        child2_traversal.clone(),
        child2_label.clone(),
    )
    .unwrap();

    assert_eq!(tree.len(), 3);

    // Verify root has two children
    let children = tree.get_children(&root_label);
    assert_eq!(children.len(), 2);

    let child_labels = tree.get_child_labels(&root_label);
    assert!(child_labels.contains(&child1_label));
    assert!(child_labels.contains(&child2_label));

    // Verify child nodes
    let child1_node = tree.get(&child1_label).unwrap();
    assert!(!child1_node.is_root());
    assert_eq!(child1_node.parent_label(), Some(&root_label));
    assert_eq!(child1_node.incoming_edge().unwrap().edge_id, EdgeId(1));

    let child2_node = tree.get(&child2_label).unwrap();
    assert!(!child2_node.is_root());
    assert_eq!(child2_node.parent_label(), Some(&root_label));
    assert_eq!(child2_node.incoming_edge().unwrap().edge_id, EdgeId(2));
}

#[test]
fn test_insert_with_nonexistent_parent() {
    let root_label = create_test_label(0);
    let mut tree = SearchTree::with_root(root_label, Direction::Forward);

    let child_label = create_test_label(1);
    let child_traversal = create_test_edge_traversal(1, 10);
    let nonexistent_parent = create_test_label(99);

    let result = tree.insert(nonexistent_parent.clone(), child_traversal, child_label);
    assert!(matches!(result, Err(SearchTreeError::ParentNotFound(_))));
}

#[test]
fn test_get_parent() {
    let root_label = create_test_label(0);
    let mut tree = SearchTree::with_root(root_label.clone(), Direction::Forward);

    let child_label = create_test_label(1);
    let child_traversal = create_test_edge_traversal(1, 10);
    tree.insert(root_label.clone(), child_traversal, child_label.clone())
        .unwrap();

    // Root has no parent
    assert!(tree.get_parent(&root_label).is_none());

    // Child has root as parent
    let parent = tree.get_parent(&child_label).unwrap();
    assert_eq!(parent.label(), &root_label);
}

#[test]
fn test_reconstruct_path_forward_orientation() {
    let root_label = create_test_label(0);
    let mut tree = SearchTree::with_root(root_label.clone(), Direction::Forward);

    // Build a linear path: 0 -> 1 -> 2 -> 3
    let child1_label = create_test_label(1);
    let child1_traversal = create_test_edge_traversal(1, 10);
    tree.insert(
        root_label.clone(),
        child1_traversal.clone(),
        child1_label.clone(),
    )
    .unwrap();

    let child2_label = create_test_label(2);
    let child2_traversal = create_test_edge_traversal(2, 15);
    tree.insert(
        child1_label.clone(),
        child2_traversal.clone(),
        child2_label.clone(),
    )
    .unwrap();

    let child3_label = create_test_label(3);
    let child3_traversal = create_test_edge_traversal(3, 20);
    tree.insert(
        child2_label.clone(),
        child3_traversal.clone(),
        child3_label.clone(),
    )
    .unwrap();

    // Reconstruct path to child3
    let path = tree.reconstruct_path(&child3_label, None).unwrap();
    assert_eq!(path.len(), 3);
    assert_eq!(path[0].edge_id, EdgeId(1)); // root -> 1
    assert_eq!(path[1].edge_id, EdgeId(2)); // 1 -> 2
    assert_eq!(path[2].edge_id, EdgeId(3)); // 2 -> 3
}

#[test]
fn test_reconstruct_path_reverse_orientation() {
    let root_label = create_test_label(0);
    let mut tree = SearchTree::with_root(root_label.clone(), Direction::Reverse);

    // Build a linear path: 0 -> 1 -> 2 -> 3
    let child1_label = create_test_label(1);
    let child1_traversal = create_test_edge_traversal(1, 10);
    tree.insert(
        root_label.clone(),
        child1_traversal.clone(),
        child1_label.clone(),
    )
    .unwrap();

    let child2_label = create_test_label(2);
    let child2_traversal = create_test_edge_traversal(2, 15);
    tree.insert(
        child1_label.clone(),
        child2_traversal.clone(),
        child2_label.clone(),
    )
    .unwrap();

    let child3_label = create_test_label(3);
    let child3_traversal = create_test_edge_traversal(3, 20);
    tree.insert(
        child2_label.clone(),
        child3_traversal.clone(),
        child3_label.clone(),
    )
    .unwrap();

    // Reconstruct path to child3 (reverse orientation keeps natural order)
    let path = tree.reconstruct_path(&child3_label, None).unwrap();
    assert_eq!(path.len(), 3);
    assert_eq!(path[0].edge_id, EdgeId(3)); // 3 -> 2
    assert_eq!(path[1].edge_id, EdgeId(2)); // 2 -> 1
    assert_eq!(path[2].edge_id, EdgeId(1)); // 1 -> root
}

#[test]
fn test_reconstruct_path_nonexistent_label() {
    let root_label = create_test_label(0);
    let tree = SearchTree::with_root(root_label, Direction::Forward);

    let nonexistent_label = create_test_label(99);
    let result = tree.reconstruct_path(&nonexistent_label, None);
    assert!(matches!(result, Err(SearchTreeError::LabelNotFound(_))));
}

#[test]
fn test_iterators() {
    let root_label = create_test_label(0);
    let mut tree = SearchTree::with_root(root_label.clone(), Direction::Forward);

    let child1_label = create_test_label(1);
    let child1_traversal = create_test_edge_traversal(1, 10);
    tree.insert(root_label.clone(), child1_traversal, child1_label.clone())
        .unwrap();

    let child2_label = create_test_label(2);
    let child2_traversal = create_test_edge_traversal(2, 15);
    tree.insert(root_label.clone(), child2_traversal, child2_label.clone())
        .unwrap();

    // Test labels iterator
    let labels: HashSet<Label> = tree.labels().into_iter().cloned().collect();
    assert_eq!(labels.len(), 3);
    assert!(labels.contains(&root_label));
    assert!(labels.contains(&child1_label));
    assert!(labels.contains(&child2_label));

    // Test nodes iterator
    let node_count = tree.nodes().len();
    assert_eq!(node_count, 3);

    let vertex_ids: HashSet<VertexId> = tree.nodes().iter().map(|n| *n.vertex_id()).collect();
    assert_eq!(vertex_ids.len(), 3);
    assert!(vertex_ids.contains(&VertexId(0)));
    assert!(vertex_ids.contains(&VertexId(1)));
    assert!(vertex_ids.contains(&VertexId(2)));
}

#[test]
fn test_backtrack_forward_tree() {
    let root_label = create_test_label(0);
    let mut tree = SearchTree::with_root(root_label.clone(), Direction::Forward);

    // Build a linear path: 0 -> 1 -> 2 -> 3
    let child1_label = create_test_label(1);
    let child1_traversal = create_test_edge_traversal(1, 10);
    tree.insert(
        root_label.clone(),
        child1_traversal.clone(),
        child1_label.clone(),
    )
    .unwrap();

    let child2_label = create_test_label(2);
    let child2_traversal = create_test_edge_traversal(2, 15);
    tree.insert(
        child1_label.clone(),
        child2_traversal.clone(),
        child2_label.clone(),
    )
    .unwrap();

    let child3_label = create_test_label(3);
    let child3_traversal = create_test_edge_traversal(3, 20);
    tree.insert(
        child2_label.clone(),
        child3_traversal.clone(),
        child3_label.clone(),
    )
    .unwrap();

    // Backtrack from vertex 3 using tree's inherent direction (Forward)
    let path = tree.backtrack(VertexId(3)).unwrap();
    assert_eq!(path.len(), 3);
    assert_eq!(path[0].edge_id, EdgeId(1)); // root -> 1
    assert_eq!(path[1].edge_id, EdgeId(2)); // 1 -> 2
    assert_eq!(path[2].edge_id, EdgeId(3)); // 2 -> 3
}

#[test]
fn test_backtrack_reverse_tree() {
    let root_label = create_test_label(0);
    let mut tree = SearchTree::with_root(root_label.clone(), Direction::Reverse);

    // Build a linear path: 0 -> 1 -> 2 -> 3
    let child1_label = create_test_label(1);
    let child1_traversal = create_test_edge_traversal(1, 10);
    tree.insert(
        root_label.clone(),
        child1_traversal.clone(),
        child1_label.clone(),
    )
    .unwrap();

    let child2_label = create_test_label(2);
    let child2_traversal = create_test_edge_traversal(2, 15);
    tree.insert(
        child1_label.clone(),
        child2_traversal.clone(),
        child2_label.clone(),
    )
    .unwrap();

    let child3_label = create_test_label(3);
    let child3_traversal = create_test_edge_traversal(3, 20);
    tree.insert(
        child2_label.clone(),
        child3_traversal.clone(),
        child3_label.clone(),
    )
    .unwrap();

    // Backtrack from vertex 3 using tree's inherent direction (Reverse)
    let path = tree.backtrack(VertexId(3)).unwrap();
    assert_eq!(path.len(), 3);
    assert_eq!(path[0].edge_id, EdgeId(3)); // 3 -> 2
    assert_eq!(path[1].edge_id, EdgeId(2)); // 2 -> 1
    assert_eq!(path[2].edge_id, EdgeId(1)); // 1 -> root
}

#[test]
fn test_backtrack_nonexistent_vertex() {
    let root_label = create_test_label(0);
    let tree = SearchTree::with_root(root_label, Direction::Forward);

    let result = tree.backtrack(VertexId(99));
    assert!(matches!(
        result,
        Err(SearchTreeError::VertexNotFound(VertexId(99)))
    ));
}

#[test]
fn test_backtrack_root_vertex() {
    let root_label = create_test_label(0);
    let tree = SearchTree::with_root(root_label.clone(), Direction::Forward);

    // Backtracking from root should return empty path
    let path = tree.backtrack(VertexId(0)).unwrap();
    assert_eq!(path.len(), 0);
}

#[test]
fn test_find_label_for_vertex() {
    let root_label = create_test_label(0);
    let mut tree = SearchTree::with_root(root_label.clone(), Direction::Forward);

    let child1_label = create_test_label(1);
    let child1_traversal = create_test_edge_traversal(1, 10);
    tree.insert(root_label.clone(), child1_traversal, child1_label.clone())
        .unwrap();

    // Test finding existing vertex
    let found_label = tree.get_min_cost_label(VertexId(1));
    assert_eq!(found_label, Some(&child1_label));

    // Test finding non-existent vertex
    let not_found = tree.get_min_cost_label(VertexId(99));
    assert_eq!(not_found, None);
}

#[test]
fn test_auto_root_creation() {
    let mut tree = SearchTree::new(Direction::Forward);
    assert!(tree.is_empty());
    assert!(tree.root().is_none());

    // Insert first node - parent should become root automatically
    let parent_label = create_test_label(0);
    let child_label = create_test_label(1);
    let edge_traversal = create_test_edge_traversal(1, 10);

    tree.insert(
        parent_label.clone(),
        edge_traversal.clone(),
        child_label.clone(),
    )
    .unwrap();

    // Verify root was created automatically
    assert!(!tree.is_empty());
    assert_eq!(tree.len(), 2); // root + child
    assert_eq!(tree.root(), Some(&parent_label));

    // Verify structure
    let root_node = tree.get(&parent_label).unwrap();
    assert!(root_node.is_root());
    assert_eq!(root_node.children().len(), 1);
    assert!(root_node.children().contains(&child_label));

    let child_node = tree.get(&child_label).unwrap();
    assert!(!child_node.is_root());
    assert_eq!(child_node.parent_label(), Some(&parent_label));
    assert_eq!(child_node.incoming_edge().unwrap().edge_id, EdgeId(1));
}

#[test]
fn test_auto_root_creation_chain() {
    let mut tree = SearchTree::new(Direction::Forward);

    // Build a chain: 0 -> 1 -> 2 -> 3 by only calling insert
    let label0 = create_test_label(0);
    let label1 = create_test_label(1);
    let label2 = create_test_label(2);
    let label3 = create_test_label(3);

    // First insert creates root automatically
    tree.insert(
        label0.clone(),
        create_test_edge_traversal(1, 10),
        label1.clone(),
    )
    .unwrap();

    // Subsequent inserts work normally
    tree.insert(
        label1.clone(),
        create_test_edge_traversal(2, 15),
        label2.clone(),
    )
    .unwrap();
    tree.insert(
        label2.clone(),
        create_test_edge_traversal(3, 20),
        label3.clone(),
    )
    .unwrap();

    // Verify final structure
    assert_eq!(tree.len(), 4);
    assert_eq!(tree.root(), Some(&label0));

    // Verify backtracking works
    let path = tree.backtrack(VertexId(3)).unwrap();
    assert_eq!(path.len(), 3);
    assert_eq!(path[0].edge_id, EdgeId(1)); // 0 -> 1
    assert_eq!(path[1].edge_id, EdgeId(2)); // 1 -> 2
    assert_eq!(path[2].edge_id, EdgeId(3)); // 2 -> 3
}

#[test]
fn test_insert_without_auto_root_when_parent_exists() {
    let mut tree = SearchTree::new(Direction::Forward);
    let root_label = create_test_label(0);

    // Manually create root first
    tree.set_root(root_label.clone());

    // Insert should work normally without creating a new root
    let child_label = create_test_label(1);
    let edge_traversal = create_test_edge_traversal(1, 10);
    tree.insert(root_label.clone(), edge_traversal, child_label.clone())
        .unwrap();

    // Root should still be the same
    assert_eq!(tree.len(), 2);
    assert_eq!(tree.root(), Some(&root_label));

    // Trying to insert with non-existent parent should still fail
    let orphan_label = create_test_label(99);
    let nonexistent_parent = create_test_label(999);
    let result = tree.insert(
        orphan_label,
        create_test_edge_traversal(99, 5),
        nonexistent_parent.clone(),
    );
    assert!(matches!(result, Err(SearchTreeError::ParentNotFound(_))));
}

#[test]
fn test_backtrack_with_depth_forward_tree_full_path() {
    let root_label = create_test_label(0);
    let mut tree = SearchTree::with_root(root_label.clone(), Direction::Forward);

    // Build a linear path: 0 -> 1 -> 2 -> 3 -> 4
    let child1_label = create_test_label(1);
    let child1_traversal = create_test_edge_traversal(1, 10);
    tree.insert(root_label.clone(), child1_traversal, child1_label.clone())
        .unwrap();

    let child2_label = create_test_label(2);
    let child2_traversal = create_test_edge_traversal(2, 15);
    tree.insert(child1_label.clone(), child2_traversal, child2_label.clone())
        .unwrap();

    let child3_label = create_test_label(3);
    let child3_traversal = create_test_edge_traversal(3, 20);
    tree.insert(child2_label.clone(), child3_traversal, child3_label.clone())
        .unwrap();

    let child4_label = create_test_label(4);
    let child4_traversal = create_test_edge_traversal(4, 25);
    tree.insert(child3_label.clone(), child4_traversal, child4_label.clone())
        .unwrap();

    // Backtrack with depth equal to total path length
    let path = tree.backtrack_with_depth(VertexId(4), 4).unwrap();

    assert_eq!(path.len(), 4);
    assert_eq!(path[0].edge_id, EdgeId(1)); // root -> 1
    assert_eq!(path[1].edge_id, EdgeId(2)); // 1 -> 2
    assert_eq!(path[2].edge_id, EdgeId(3)); // 2 -> 3
    assert_eq!(path[3].edge_id, EdgeId(4)); // 3 -> 4
}

#[test]
fn test_backtrack_with_depth_forward_tree_limited_depth() {
    let root_label = create_test_label(0);
    let mut tree = SearchTree::with_root(root_label.clone(), Direction::Forward);

    // Build a linear path: 0 -> 1 -> 2 -> 3 -> 4
    let child1_label = create_test_label(1);
    let child1_traversal = create_test_edge_traversal(1, 10);
    tree.insert(root_label.clone(), child1_traversal, child1_label.clone())
        .unwrap();

    let child2_label = create_test_label(2);
    let child2_traversal = create_test_edge_traversal(2, 15);
    tree.insert(child1_label.clone(), child2_traversal, child2_label.clone())
        .unwrap();

    let child3_label = create_test_label(3);
    let child3_traversal = create_test_edge_traversal(3, 20);
    tree.insert(child2_label.clone(), child3_traversal, child3_label.clone())
        .unwrap();

    let child4_label = create_test_label(4);
    let child4_traversal = create_test_edge_traversal(4, 25);
    tree.insert(child3_label.clone(), child4_traversal, child4_label.clone())
        .unwrap();

    // Backtrack with depth less than total path length
    let path = tree.backtrack_with_depth(VertexId(4), 2).unwrap();

    // Should only get the last 2 edges (limited by depth)
    assert_eq!(path.len(), 2);
    assert_eq!(path[0].edge_id, EdgeId(3)); // 2 -> 3
    assert_eq!(path[1].edge_id, EdgeId(4)); // 3 -> 4
}

#[test]
fn test_backtrack_with_depth_forward_tree_depth_one() {
    let root_label = create_test_label(0);
    let mut tree = SearchTree::with_root(root_label.clone(), Direction::Forward);

    // Build a linear path: 0 -> 1 -> 2 -> 3
    let child1_label = create_test_label(1);
    let child1_traversal = create_test_edge_traversal(1, 10);
    tree.insert(root_label.clone(), child1_traversal, child1_label.clone())
        .unwrap();

    let child2_label = create_test_label(2);
    let child2_traversal = create_test_edge_traversal(2, 15);
    tree.insert(child1_label.clone(), child2_traversal, child2_label.clone())
        .unwrap();

    let child3_label = create_test_label(3);
    let child3_traversal = create_test_edge_traversal(3, 20);
    tree.insert(child2_label.clone(), child3_traversal, child3_label.clone())
        .unwrap();

    // Backtrack with depth of 1
    let path = tree.backtrack_with_depth(VertexId(3), 1).unwrap();

    // Should only get the last edge
    assert_eq!(path.len(), 1);
    assert_eq!(path[0].edge_id, EdgeId(3)); // 2 -> 3
}

#[test]
fn test_backtrack_with_depth_reverse_tree_full_path() {
    let root_label = create_test_label(0);
    let mut tree = SearchTree::with_root(root_label.clone(), Direction::Reverse);

    // Build a linear path: 0 -> 1 -> 2 -> 3 -> 4
    let child1_label = create_test_label(1);
    let child1_traversal = create_test_edge_traversal(1, 10);
    tree.insert(root_label.clone(), child1_traversal, child1_label.clone())
        .unwrap();

    let child2_label = create_test_label(2);
    let child2_traversal = create_test_edge_traversal(2, 15);
    tree.insert(child1_label.clone(), child2_traversal, child2_label.clone())
        .unwrap();

    let child3_label = create_test_label(3);
    let child3_traversal = create_test_edge_traversal(3, 20);
    tree.insert(child2_label.clone(), child3_traversal, child3_label.clone())
        .unwrap();

    let child4_label = create_test_label(4);
    let child4_traversal = create_test_edge_traversal(4, 25);
    tree.insert(child3_label.clone(), child4_traversal, child4_label.clone())
        .unwrap();

    // Backtrack with depth equal to total path length (reverse orientation)
    let path = tree.backtrack_with_depth(VertexId(4), 4).unwrap();

    assert_eq!(path.len(), 4);
    // In reverse orientation, path is not reversed, so it goes from target to root
    assert_eq!(path[0].edge_id, EdgeId(4)); // 4 -> 3
    assert_eq!(path[1].edge_id, EdgeId(3)); // 3 -> 2
    assert_eq!(path[2].edge_id, EdgeId(2)); // 2 -> 1
    assert_eq!(path[3].edge_id, EdgeId(1)); // 1 -> root
}

#[test]
fn test_backtrack_with_depth_reverse_tree_limited_depth() {
    let root_label = create_test_label(0);
    let mut tree = SearchTree::with_root(root_label.clone(), Direction::Reverse);

    // Build a linear path: 0 -> 1 -> 2 -> 3 -> 4
    let child1_label = create_test_label(1);
    let child1_traversal = create_test_edge_traversal(1, 10);
    tree.insert(root_label.clone(), child1_traversal, child1_label.clone())
        .unwrap();

    let child2_label = create_test_label(2);
    let child2_traversal = create_test_edge_traversal(2, 15);
    tree.insert(child1_label.clone(), child2_traversal, child2_label.clone())
        .unwrap();

    let child3_label = create_test_label(3);
    let child3_traversal = create_test_edge_traversal(3, 20);
    tree.insert(child2_label.clone(), child3_traversal, child3_label.clone())
        .unwrap();

    let child4_label = create_test_label(4);
    let child4_traversal = create_test_edge_traversal(4, 25);
    tree.insert(child3_label.clone(), child4_traversal, child4_label.clone())
        .unwrap();

    // Backtrack with depth less than total path length
    let path = tree.backtrack_with_depth(VertexId(4), 2).unwrap();

    // Should only get the first 2 edges from the target
    assert_eq!(path.len(), 2);
    assert_eq!(path[0].edge_id, EdgeId(4)); // 4 -> 3
    assert_eq!(path[1].edge_id, EdgeId(3)); // 3 -> 2
}

#[test]
fn test_backtrack_with_depth_from_root() {
    let root_label = create_test_label(0);
    let tree = SearchTree::with_root(root_label.clone(), Direction::Forward);

    // Backtracking from root with any depth should return empty path
    let path = tree.backtrack_with_depth(VertexId(0), 5).unwrap();
    assert_eq!(path.len(), 0);
}

#[test]
fn test_backtrack_with_depth_nonexistent_vertex() {
    let root_label = create_test_label(0);
    let tree = SearchTree::with_root(root_label, Direction::Forward);

    let result = tree.backtrack_with_depth(VertexId(99), 1);
    assert!(matches!(
        result,
        Err(SearchTreeError::VertexNotFound(VertexId(99)))
    ));
}

#[test]
fn test_backtrack_with_depth_exceeds_available_path() {
    let root_label = create_test_label(0);
    let mut tree = SearchTree::with_root(root_label.clone(), Direction::Forward);

    // Build a short path: 0 -> 1 -> 2
    let child1_label = create_test_label(1);
    let child1_traversal = create_test_edge_traversal(1, 10);
    tree.insert(root_label.clone(), child1_traversal, child1_label.clone())
        .unwrap();

    let child2_label = create_test_label(2);
    let child2_traversal = create_test_edge_traversal(2, 15);
    tree.insert(child1_label.clone(), child2_traversal, child2_label.clone())
        .unwrap();

    // Request more depth than available
    let path = tree.backtrack_with_depth(VertexId(2), 10).unwrap();

    // Should return the entire available path (2 edges)
    assert_eq!(path.len(), 2);
    assert_eq!(path[0].edge_id, EdgeId(1)); // root -> 1
    assert_eq!(path[1].edge_id, EdgeId(2)); // 1 -> 2
}

#[test]
fn test_backtrack_with_depth_branching_tree() {
    let root_label = create_test_label(0);
    let mut tree = SearchTree::with_root(root_label.clone(), Direction::Forward);

    // Build a branching tree:
    //     0
    //   /   \
    //  1     2
    //  |     |
    //  3     4
    //        |
    //        5

    let child1_label = create_test_label(1);
    let child1_traversal = create_test_edge_traversal(1, 10);
    tree.insert(root_label.clone(), child1_traversal, child1_label.clone())
        .unwrap();

    let child2_label = create_test_label(2);
    let child2_traversal = create_test_edge_traversal(2, 15);
    tree.insert(root_label.clone(), child2_traversal, child2_label.clone())
        .unwrap();

    let child3_label = create_test_label(3);
    let child3_traversal = create_test_edge_traversal(3, 20);
    tree.insert(child1_label.clone(), child3_traversal, child3_label.clone())
        .unwrap();

    let child4_label = create_test_label(4);
    let child4_traversal = create_test_edge_traversal(4, 25);
    tree.insert(child2_label.clone(), child4_traversal, child4_label.clone())
        .unwrap();

    let child5_label = create_test_label(5);
    let child5_traversal = create_test_edge_traversal(5, 30);
    tree.insert(child4_label.clone(), child5_traversal, child5_label.clone())
        .unwrap();

    // Test backtrack from leaf node 3 with depth 1
    let path = tree.backtrack_with_depth(VertexId(3), 1).unwrap();
    assert_eq!(path.len(), 1);
    assert_eq!(path[0].edge_id, EdgeId(3)); // 1 -> 3

    // Test backtrack from leaf node 5 with depth 2
    let path = tree.backtrack_with_depth(VertexId(5), 2).unwrap();
    assert_eq!(path.len(), 2);
    assert_eq!(path[0].edge_id, EdgeId(4)); // 2 -> 4
    assert_eq!(path[1].edge_id, EdgeId(5)); // 4 -> 5

    // Test backtrack from leaf node 5 with full depth
    let path = tree.backtrack_with_depth(VertexId(5), 3).unwrap();
    assert_eq!(path.len(), 3);
    assert_eq!(path[0].edge_id, EdgeId(2)); // root -> 2
    assert_eq!(path[1].edge_id, EdgeId(4)); // 2 -> 4
    assert_eq!(path[2].edge_id, EdgeId(5)); // 4 -> 5
}


#[test]
fn test_get_label_by_min_and_max() {
    let root_label = create_test_label(0);
    let mut tree = SearchTree::with_root(root_label, Direction::Forward);
    let cheap = Label::VertexWithIntState { vertex_id: VertexId(1), state: 0 };
    let dear = Label::VertexWithIntState { vertex_id: VertexId(1), state: 1 };
    let other = create_test_label(2);
    tree.insert(root_label, create_test_edge_traversal(1, 5), cheap).unwrap();
    tree.insert(root_label, create_test_edge_traversal(2, 20), dear).unwrap();
    tree.insert(root_label, create_test_edge_traversal(3, 1), other).unwrap();

    let by_cost = |pair: &(&Label, Option<&EdgeTraversal>)| match pair.1 {
        None => i64::MAX,
        Some(e) => e.cost.total_cost.0,
    };
    assert_eq!(tree.get_label_by(VertexId(1), by_cost, true), Some(&cheap));
    assert_eq!(tree.get_label_by(VertexId(1), by_cost, false), Some(&dear));
    assert_eq!(tree.get_label_by(VertexId(7), by_cost, true), None);

    // the root is handed to the comparison without an incoming edge
    let root_first = |pair: &(&Label, Option<&EdgeTraversal>)| if pair.1.is_none() { 0 } else { 1 };
    assert_eq!(tree.get_label_by(VertexId(0), root_first, true), Some(&root_label));
}
