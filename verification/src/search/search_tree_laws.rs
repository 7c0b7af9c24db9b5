use vstd::prelude::*;
use crate::label::Label;
use crate::search::direction::Direction;
use crate::search::edge_traversal::EdgeTraversalView;
use crate::search::search_tree::{
    backtrack_matches, empty_tree, has_vertex, inserted, insert_succeeds, is_min_cost_label, path_result_matches,
    rooted_at, walk, with_child, SearchTreeError, SearchTreeView,
};
use crate::search::edge_traversal::EdgeTraversal;
use crate::network::VertexId;
use crate::search::search_tree_node::SearchTreeNodeView;

verus! {

/// A well-formed search tree: finitely many nodes, each stored under its own label and
/// sharing the tree's orientation; every parent and every child a node names is in the
/// tree; the root, present exactly when the tree is not empty, is in the tree.
pub open spec fn tree_wf(t: SearchTreeView) -> bool {
    &&& t.nodes.dom().finite()
    &&& forall|l: Label| #[trigger] t.nodes.contains_key(l) ==> t.nodes[l].label() == l && t.nodes[l].direction() == t.direction
    &&& forall|l: Label| #[trigger] t.nodes.contains_key(l) ==> (t.nodes[l].parent() matches Some(p) ==> t.nodes.contains_key(p))
    &&& forall|l: Label, j: int| t.nodes.contains_key(l) && 0 <= j < t.nodes[l].children().len()
        ==> t.nodes.contains_key(#[trigger] t.nodes[l].children()[j])
    &&& (t.root matches Some(r) ==> t.nodes.contains_key(r))
    &&& (t.root is None <==> t.nodes.len() == 0)
}

/// Two nodes that a walk toward the root cannot tell apart: both roots, or both
/// branches with the same incoming edge and parent.
pub open spec fn same_links(a: SearchTreeNodeView, b: SearchTreeNodeView) -> bool {
    match (a, b) {
        (SearchTreeNodeView::Root { .. }, SearchTreeNodeView::Root { .. }) => true,
        (SearchTreeNodeView::Branch { incoming_edge: e1, parent: p1, .. }, SearchTreeNodeView::Branch { incoming_edge: e2, parent: p2, .. }) =>
            e1 == e2 && p1 == p2,
        _ => false,
    }
}

/// An empty tree is well formed.
pub proof fn law_empty_tree_wf(direction: Direction)
    ensures
        tree_wf(empty_tree(direction)),
{
    assert(empty_tree(direction).nodes.dom() =~= Set::<Label>::empty());
}

/// Rooting a well-formed tree at a label keeps it well formed, and the label then holds
/// a root node without children.
pub proof fn law_set_root_keeps_wf(t: SearchTreeView, label: Label)
    requires
        tree_wf(t),
    ensures
        tree_wf(rooted_at(t, label)),
        rooted_at(t, label).nodes[label] == (SearchTreeNodeView::Root { label, children: Seq::empty(), direction: t.direction }),
        rooted_at(t, label).root == Some(label),
        forall|k: Label| #[trigger] t.nodes.contains_key(k) ==> rooted_at(t, label).nodes.contains_key(k),
{
    let r = rooted_at(t, label);
    assert(r.nodes.dom() =~= t.nodes.dom().insert(label));
    assert(r.nodes.len() > 0) by {
        assert(r.nodes.dom().contains(label));
    }
    assert forall|l: Label, j: int| r.nodes.contains_key(l) && 0 <= j < r.nodes[l].children().len()
        implies r.nodes.contains_key(#[trigger] r.nodes[l].children()[j]) by {
        if l != label {
            assert(t.nodes.contains_key(t.nodes[l].children()[j]));
        }
    }
}

/// An insertion into a well-formed tree that succeeds keeps it well formed; the child
/// then holds a fresh branch node reached from the parent through the edge, every label
/// of the tree stays in it, and the root is kept, except that an empty tree is rooted at the parent.
pub proof fn law_insert_keeps_wf(t: SearchTreeView, parent: Label, edge: EdgeTraversalView, child: Label)
    requires
        tree_wf(t),
        insert_succeeds(t, parent),
    ensures
        tree_wf(inserted(t, parent, edge, child)),
        inserted(t, parent, edge, child).nodes[child] == (SearchTreeNodeView::Branch {
            label: child,
            incoming_edge: edge,
            parent,
            children: Seq::empty(),
            direction: t.direction,
        }),
        inserted(t, parent, edge, child).nodes.contains_key(parent),
        forall|k: Label| #[trigger] t.nodes.contains_key(k) ==> inserted(t, parent, edge, child).nodes.contains_key(k),
        inserted(t, parent, edge, child).root == (if t.nodes.len() == 0 { Some(parent) } else { t.root }),
        inserted(t, parent, edge, child).direction == t.direction,
{
    let base = if t.nodes.contains_key(parent) { t } else { rooted_at(t, parent) };
    if !t.nodes.contains_key(parent) {
        law_set_root_keeps_wf(t, parent);
        assert(t.nodes.len() == 0);
    } else {
        assert(t.nodes.len() > 0) by {
            assert(t.nodes.dom().contains(parent));
        }
    }
    assert(tree_wf(base));
    assert(base.nodes.contains_key(parent));
    let r = inserted(t, parent, edge, child);
    if parent == child {
        assert(r.nodes.dom() =~= base.nodes.dom());
    } else {
        assert(r.nodes.dom() =~= base.nodes.dom().insert(child));
    }
    assert(r.nodes.len() > 0) by {
        assert(r.nodes.dom().contains(child));
    }
    assert forall|l: Label, j: int| r.nodes.contains_key(l) && 0 <= j < r.nodes[l].children().len()
        implies r.nodes.contains_key(#[trigger] r.nodes[l].children()[j]) by {
        if l == child {
        } else if l == parent {
            let bp = base.nodes[parent];
            if !bp.children().contains(child) {
                if j < bp.children().len() {
                    assert(bp.children().push(child)[j] == bp.children()[j]);
                    assert(base.nodes.contains_key(bp.children()[j]));
                }
            } else {
                assert(base.nodes.contains_key(bp.children()[j]));
            }
        } else {
            assert(base.nodes.contains_key(base.nodes[l].children()[j]));
        }
    }
    assert forall|l: Label| #[trigger] r.nodes.contains_key(l) implies (r.nodes[l].parent() matches Some(p) ==> r.nodes.contains_key(p)) by {
        if l != child && l != parent {
            assert(base.nodes.contains_key(l));
        }
    }
}

/// Walks in two maps agree when the maps agree on the links of every label of the
/// first, and every parent named in the first is in it.
pub proof fn lemma_walk_agrees(m: Map<Label, SearchTreeNodeView>, m2: Map<Label, SearchTreeNodeView>, label: Label, fuel: nat)
    requires
        m.contains_key(label),
        forall|l: Label| #[trigger] m.contains_key(l) ==> m2.contains_key(l) && same_links(m[l], m2[l]),
        forall|l: Label| #[trigger] m.contains_key(l) ==> (m[l].parent() matches Some(p) ==> m.contains_key(p)),
    ensures
        walk(m2, label, fuel) == walk(m, label, fuel),
    decreases fuel,
{
    if fuel > 0 {
        assert(same_links(m[label], m2[label]));
        match m[label] {
            SearchTreeNodeView::Root { .. } => {},
            SearchTreeNodeView::Branch { parent, .. } => {
                assert(m[label].parent() == Some(parent));
                lemma_walk_agrees(m, m2, parent, (fuel - 1) as nat);
            },
        }
    }
}

/// Backtracking from a child just inserted under a parent of a well-formed tree gives the
/// child's incoming edge followed by what backtracking from the parent gave before.
pub proof fn law_insert_then_walk(t: SearchTreeView, parent: Label, edge: EdgeTraversalView, child: Label, fuel: nat)
    requires
        tree_wf(t),
        t.nodes.contains_key(parent),
        !t.nodes.contains_key(child),
    ensures
        walk(inserted(t, parent, edge, child).nodes, child, fuel + 1)
            == (seq![edge] + walk(t.nodes, parent, fuel).0, walk(t.nodes, parent, fuel).1),
{
    law_insert_keeps_wf(t, parent, edge, child);
    let m2 = inserted(t, parent, edge, child).nodes;
    assert forall|l: Label| #[trigger] t.nodes.contains_key(l) implies m2.contains_key(l) && same_links(t.nodes[l], m2[l]) by {
        if l == parent {
            assert(m2[l] == with_child(t.nodes[parent], child));
            match t.nodes[parent] {
                SearchTreeNodeView::Root { .. } => {},
                SearchTreeNodeView::Branch { .. } => {},
            }
        } else {
            assert(l != child);
            assert(m2[l] == t.nodes[l]);
            match t.nodes[l] {
                SearchTreeNodeView::Root { .. } => {},
                SearchTreeNodeView::Branch { .. } => {},
            }
        }
    }
    lemma_walk_agrees(t.nodes, m2, parent, fuel);
    assert(walk(m2, child, fuel + 1) == (seq![edge] + walk(m2, parent, fuel).0, walk(m2, parent, fuel).1));
}


/// When vertex `v` has one cheapest label in the tree (as it always has when the tree is
/// keyed by vertex alone), every backtrack from `v` starts from that same label: a full
/// backtrack `r` and one limited to `depth` steps, `r2`, follow the same walk.
pub proof fn law_backtracks_agree(t: SearchTreeView, v: VertexId, depth: u64,
    r: Result<Vec<EdgeTraversal>, SearchTreeError>, r2: Result<Vec<EdgeTraversal>, SearchTreeError>)
    requires
        forall|l1: Label, l2: Label| is_min_cost_label(t, v, l1) && is_min_cost_label(t, v, l2) ==> l1 == l2,
        backtrack_matches(t, v, r),
        has_vertex(t, v) ==> exists|l: Label| is_min_cost_label(t, v, l) && #[trigger] path_result_matches(t, l, Some(depth), r2),
    ensures
        !has_vertex(t, v) ==> r == Err::<Vec<EdgeTraversal>, SearchTreeError>(SearchTreeError::VertexNotFound(v)),
        has_vertex(t, v) ==> exists|l: Label| #[trigger] is_min_cost_label(t, v, l)
            && path_result_matches(t, l, None, r) && path_result_matches(t, l, Some(depth), r2),
{
    if has_vertex(t, v) {
        let l1 = choose|l: Label| is_min_cost_label(t, v, l) && path_result_matches(t, l, None, r);
        let l2 = choose|l: Label| is_min_cost_label(t, v, l) && #[trigger] path_result_matches(t, l, Some(depth), r2);
        assert(l1 == l2);
    }
}

/// In a tree that holds at most one label of each vertex, every vertex it holds has one
/// cheapest label.
pub proof fn law_one_label_per_vertex(t: SearchTreeView, v: VertexId)
    requires
        forall|l1: Label, l2: Label| #[trigger] t.nodes.contains_key(l1) && #[trigger] t.nodes.contains_key(l2)
            && l1.vertex() == l2.vertex() ==> l1 == l2,
    ensures
        forall|l1: Label, l2: Label| is_min_cost_label(t, v, l1) && is_min_cost_label(t, v, l2) ==> l1 == l2,
{
}

} // verus!
