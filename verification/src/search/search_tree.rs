use vstd::prelude::*;
use crate::label::Label;
use crate::network::{EdgeId, EdgeListId, Graph, NetworkError, VertexId};
use crate::search::direction::Direction;
use crate::search::edge_traversal::{EdgeTraversal, EdgeTraversalView};
use crate::search::search_tree_node::{labels_contain, SearchTreeNode, SearchTreeNodeView};

verus! {

/// Errors raised by search tree operations.
#[derive(Debug)]
pub enum SearchTreeError {
    ParentNotFound(Label),
    LabelNotFound(Label),
    MissingParent(Label),
    InvalidBranchStructure(String),
    VertexNotFound(VertexId),
    NetworkError(NetworkError),
}

/// The mathematical value of a search tree: its nodes by label, its root and orientation.
pub struct SearchTreeView {
    pub nodes: Map<Label, SearchTreeNodeView>,
    pub root: Option<Label>,
    pub direction: Direction,
}

/// How a walk up the parent chain of a search tree ended.
pub enum WalkEnd {
    /// the walk reached a root node
    Root,
    /// the walk reached a label that the tree does not hold
    Missing(Label),
    /// the walk used up its allowed number of steps
    OutOfSteps,
}

/// Walks from `label` toward the root, taking at most `fuel` steps, and
/// returns the incoming edges met on the way (nearest first) and how the walk ended.
pub open spec fn walk(m: Map<Label, SearchTreeNodeView>, label: Label, fuel: nat) -> (Seq<EdgeTraversalView>, WalkEnd)
    decreases fuel,
{
    if fuel == 0 {
        (Seq::empty(), WalkEnd::OutOfSteps)
    } else if !m.contains_key(label) {
        (Seq::empty(), WalkEnd::Missing(label))
    } else {
        match m[label] {
            SearchTreeNodeView::Root { .. } => (Seq::empty(), WalkEnd::Root),
            SearchTreeNodeView::Branch { incoming_edge, parent, .. } => {
                let rest = walk(m, parent, (fuel - 1) as nat);
                (seq![incoming_edge] + rest.0, rest.1)
            },
        }
    }
}

/// A path collected from a target toward the root, put in the order of the
/// tree's orientation: root-to-target for forward trees, target-to-root for reverse trees.
pub open spec fn oriented(direction: Direction, path: Seq<EdgeTraversalView>) -> Seq<EdgeTraversalView> {
    match direction {
        Direction::Forward => path.reverse(),
        Direction::Reverse => path,
    }
}

/// The views of a sequence of edge traversals.
pub open spec fn traversal_views(s: Seq<EdgeTraversal>) -> Seq<EdgeTraversalView> {
    s.map_values(|e: EdgeTraversal| e@)
}

/// The number of steps a walk needs at most when it is not limited by a depth.
pub open spec fn full_walk_fuel(t: SearchTreeView) -> nat {
    t.nodes.len() + 1
}

/// The labels of the nodes of a sequence.
pub open spec fn node_labels(s: Seq<SearchTreeNode>) -> Seq<Label> {
    s.map_values(|n: SearchTreeNode| n@.label())
}

/// The ordering key used to find the cheapest label of a vertex: the total
/// cost of the node's incoming edge, and the largest cost for a root.
pub open spec fn min_cost_key(n: SearchTreeNodeView) -> int {
    match n {
        SearchTreeNodeView::Root { .. } => i64::MAX as int,
        SearchTreeNodeView::Branch { incoming_edge, .. } => incoming_edge.cost.total_cost.0 as int,
    }
}

/// Whether `l` is a label of vertex `v` in the tree whose key is least among the labels of `v`.
pub open spec fn is_min_cost_label(t: SearchTreeView, v: VertexId, l: Label) -> bool {
    &&& t.nodes.contains_key(l)
    &&& l.vertex() == v
    &&& forall|l2: Label| #[trigger] t.nodes.contains_key(l2) && l2.vertex() == v
        ==> min_cost_key(t.nodes[l]) <= min_cost_key(t.nodes[l2])
}

/// What `get_label_by` hands its comparison for label `l` of tree `t`: the label
/// and, unless its node is a root, the node's incoming edge.
pub open spec fn comparison_arg(t: SearchTreeView, l: Label, a: (&Label, Option<&EdgeTraversal>)) -> bool {
    &&& *a.0 == l
    &&& match a.1 {
        None => t.nodes[l].edge() is None,
        Some(e) => t.nodes[l].edge() == Some(e@),
    }
}

/// Whether `compare` may give the key `k` for label `l` of tree `t`.
pub open spec fn key_of<F: Fn(&(&Label, Option<&EdgeTraversal>)) -> i64>(compare: F, t: SearchTreeView, l: Label, k: i64) -> bool {
    exists|a: (&Label, Option<&EdgeTraversal>)| comparison_arg(t, l, a) && #[trigger] compare.ensures((&a,), k)
}

/// Whether key `k` comes no later than key `k2` in the wanted order: the least
/// key first when `min` holds, else the greatest.
pub open spec fn ranks_first(k: i64, k2: i64, min: bool) -> bool {
    if min { k <= k2 } else { k2 <= k }
}

/// Whether `l` is a label of vertex `v` in `t` whose key under `compare`, as it was
/// computed, ranks first against the key computed for each label of `v`.
pub open spec fn is_label_by<F: Fn(&(&Label, Option<&EdgeTraversal>)) -> i64>(
    compare: F,
    t: SearchTreeView,
    v: VertexId,
    l: Label,
    min: bool,
) -> bool {
    &&& t.nodes.contains_key(l)
    &&& l.vertex() == v
    &&& exists|k: i64| #[trigger] key_of(compare, t, l, k)
        && forall|l2: Label| #[trigger] t.nodes.contains_key(l2) && l2.vertex() == v
            ==> exists|k2: i64| #[trigger] key_of(compare, t, l2, k2) && ranks_first(k, k2, min)
}

/// Whether the tree holds a label of vertex `v`.
pub open spec fn has_vertex(t: SearchTreeView, v: VertexId) -> bool {
    exists|l: Label| #[trigger] t.nodes.contains_key(l) && l.vertex() == v
}

/// What `reconstruct_path` gives for `target` and `depth`, up to the message of a structure error.
pub open spec fn path_result_matches(
    t: SearchTreeView,
    target: Label,
    depth: Option<u64>,
    r: Result<Vec<EdgeTraversal>, SearchTreeError>,
) -> bool {
    let fuel = match depth {
        Some(d) => d as nat,
        None => full_walk_fuel(t),
    };
    let w = walk(t.nodes, target, fuel);
    match w.1 {
        WalkEnd::Missing(l) => r == Err::<Vec<EdgeTraversal>, SearchTreeError>(SearchTreeError::LabelNotFound(l)),
        WalkEnd::OutOfSteps if depth is None => r matches Err(SearchTreeError::InvalidBranchStructure(_)),
        _ => r matches Ok(p) && traversal_views(p@) == oriented(t.direction, w.0),
    }
}


/// What backtracking from the cheapest label of vertex `v` gives: an error when
/// the tree holds no label of `v`, else the path to some cheapest label of `v`.
pub open spec fn backtrack_matches(t: SearchTreeView, v: VertexId, r: Result<Vec<EdgeTraversal>, SearchTreeError>) -> bool {
    &&& !has_vertex(t, v) ==> r == Err::<Vec<EdgeTraversal>, SearchTreeError>(SearchTreeError::VertexNotFound(v))
    &&& has_vertex(t, v) ==> exists|l: Label| is_min_cost_label(t, v, l) && path_result_matches(t, l, None, r)
}

/// The empty tree of an orientation.
pub open spec fn empty_tree(direction: Direction) -> SearchTreeView {
    SearchTreeView { nodes: Map::empty(), root: None, direction }
}

/// A node with `child` recorded among its children, unless it is there already.
pub open spec fn with_child(n: SearchTreeNodeView, child: Label) -> SearchTreeNodeView {
    let cs = if n.children().contains(child) { n.children() } else { n.children().push(child) };
    match n {
        SearchTreeNodeView::Root { label, direction, .. } => SearchTreeNodeView::Root { label, children: cs, direction },
        SearchTreeNodeView::Branch { label, incoming_edge, parent, direction, .. } =>
            SearchTreeNodeView::Branch { label, incoming_edge, parent, children: cs, direction },
    }
}

/// The tree after `set_root(label)`: `label` holds a root node without children and becomes the root.
pub open spec fn rooted_at(t: SearchTreeView, label: Label) -> SearchTreeView {
    SearchTreeView {
        nodes: t.nodes.insert(label, SearchTreeNodeView::Root { label, children: Seq::empty(), direction: t.direction }),
        root: Some(label),
        direction: t.direction,
    }
}

/// The tree after a successful `insert(parent, edge, child)`: an empty tree is first
/// rooted at `parent`; then `child` holds a fresh branch node reached from `parent`
/// through `edge`, and `parent` records `child` among its children.
pub open spec fn inserted(t: SearchTreeView, parent: Label, edge: EdgeTraversalView, child: Label) -> SearchTreeView {
    let base = if t.nodes.contains_key(parent) { t } else { rooted_at(t, parent) };
    let branch = SearchTreeNodeView::Branch {
        label: child,
        incoming_edge: edge,
        parent,
        children: Seq::empty(),
        direction: t.direction,
    };
    let nodes = if parent == child {
        base.nodes.insert(child, branch)
    } else {
        base.nodes.insert(child, branch).insert(parent, with_child(base.nodes[parent], child))
    };
    SearchTreeView { nodes, root: base.root, direction: t.direction }
}

/// Whether an `insert` with this parent succeeds: the parent is in the tree, or the tree is empty.
pub open spec fn insert_succeeds(t: SearchTreeView, parent: Label) -> bool {
    t.nodes.contains_key(parent) || t.nodes.len() == 0
}

/// The view of a tree made of these parts.
spec fn parts_view(nodes: Seq<SearchTreeNode>, root: Option<Label>, direction: Direction) -> SearchTreeView {
    SearchTreeView {
        nodes: Map::new(
            |l: Label| node_labels(nodes).contains(l),
            |l: Label| nodes[node_labels(nodes).index_of(l)]@,
        ),
        root,
        direction,
    }
}

/// Labels are distinct, every node belongs to the tree's orientation, every
/// parent and every child named by a node is in the tree, children are not
/// repeated, and the root, present exactly when the tree is not empty, is in the tree.
spec fn parts_inv(nodes: Seq<SearchTreeNode>, root: Option<Label>, direction: Direction) -> bool {
    let labels = node_labels(nodes);
    &&& labels.no_duplicates()
    &&& forall|i: int| 0 <= i < nodes.len() ==> (#[trigger] nodes[i])@.direction() == direction
    &&& forall|i: int| 0 <= i < nodes.len() ==>
        ((#[trigger] nodes[i])@.parent() matches Some(p) ==> labels.contains(p))
    &&& forall|i: int, j: int| 0 <= i < nodes.len() && 0 <= j < nodes[i]@.children().len()
        ==> labels.contains(#[trigger] nodes[i]@.children()[j])
    &&& forall|i: int| 0 <= i < nodes.len() ==> (#[trigger] nodes[i])@.children().no_duplicates()
    &&& (root matches Some(r) ==> labels.contains(r))
    &&& (root is None <==> nodes.len() == 0)
}

proof fn lemma_view_at(nodes: Seq<SearchTreeNode>, root: Option<Label>, direction: Direction, i: int)
    requires
        node_labels(nodes).no_duplicates(),
        0 <= i < nodes.len(),
    ensures
        parts_view(nodes, root, direction).nodes.contains_key(nodes[i]@.label()),
        parts_view(nodes, root, direction).nodes[nodes[i]@.label()] == nodes[i]@,
{
    let labels = node_labels(nodes);
    assert(labels[i] == nodes[i]@.label());
    assert(labels.contains(labels[i]));
    let k = labels.index_of(labels[i]);
    assert(0 <= k < labels.len() && labels[k] == labels[i]);
}

proof fn lemma_view_dom(nodes: Seq<SearchTreeNode>, root: Option<Label>, direction: Direction)
    requires
        node_labels(nodes).no_duplicates(),
    ensures
        parts_view(nodes, root, direction).nodes.dom() == node_labels(nodes).to_set(),
        parts_view(nodes, root, direction).nodes.len() == nodes.len(),
{
    let labels = node_labels(nodes);
    assert(parts_view(nodes, root, direction).nodes.dom() =~= labels.to_set());
    labels.unique_seq_to_set();
}

proof fn lemma_with_child(a: SearchTreeNodeView, b: SearchTreeNodeView, c: Label)
    requires
        b.label() == a.label(),
        b.direction() == a.direction(),
        b.parent() == a.parent(),
        b.edge() == a.edge(),
        b.children() == (if a.children().contains(c) { a.children() } else { a.children().push(c) }),
    ensures
        b == with_child(a, c),
{
    match a {
        SearchTreeNodeView::Root { .. } => {
            match b {
                SearchTreeNodeView::Root { .. } => {},
                SearchTreeNodeView::Branch { .. } => {},
            }
        },
        SearchTreeNodeView::Branch { .. } => {
            match b {
                SearchTreeNodeView::Root { .. } => {},
                SearchTreeNodeView::Branch { .. } => {},
            }
        },
    }
}

proof fn lemma_update_view(nodes: Seq<SearchTreeNode>, i: int, n: SearchTreeNode, root: Option<Label>, direction: Direction)
    requires
        node_labels(nodes).no_duplicates(),
        0 <= i < nodes.len(),
        n@.label() == nodes[i]@.label(),
    ensures
        node_labels(nodes.update(i, n)) == node_labels(nodes),
        parts_view(nodes.update(i, n), root, direction).nodes
            == parts_view(nodes, root, direction).nodes.insert(n@.label(), n@),
{
    let nn = nodes.update(i, n);
    assert(node_labels(nn) =~= node_labels(nodes));
    let nv = parts_view(nn, root, direction).nodes;
    let ov = parts_view(nodes, root, direction).nodes.insert(n@.label(), n@);
    lemma_view_dom(nn, root, direction);
    lemma_view_dom(nodes, root, direction);
    lemma_view_at(nodes, root, direction, i);
    assert(nv.dom() =~= ov.dom());
    assert forall|l: Label| #[trigger] nv.contains_key(l) implies nv[l] == ov[l] by {
        let k = node_labels(nn).index_of(l);
        assert(node_labels(nn)[k] == l);
        assert(node_labels(nodes)[i] == n@.label());
        lemma_view_at(nn, root, direction, k);
        if k != i {
            assert(l != n@.label());
            assert(nn[k] == nodes[k]);
            assert(node_labels(nodes)[k] == l);
            lemma_view_at(nodes, root, direction, k);
        }
    }
    assert(nv =~= ov);
}

/// Finds the position of the node labelled `l`.
fn find_index(nodes: &Vec<SearchTreeNode>, l: &Label) -> (r: Option<usize>)
    ensures
        match r {
            Some(i) => i < nodes@.len() && nodes@[i as int]@.label() == *l,
            None => !node_labels(nodes@).contains(*l),
        },
{
    let mut i: usize = 0;
    while i < nodes.len()
        invariant
            0 <= i <= nodes@.len(),
            forall|j: int| 0 <= j < i ==> nodes@[j]@.label() != *l,
        decreases nodes@.len() - i,
    {
        if *nodes[i].label() == *l {
            return Some(i);
        }
        i = i + 1;
    }
    proof {
        let labels = node_labels(nodes@);
        if labels.contains(*l) {
            let k = labels.index_of(*l);
            assert(labels[k] == nodes@[k]@.label());
        }
    }
    None
}

/// Replaces or adds the node of `node`'s label; the other nodes keep their positions.
fn put_node(nodes: &mut Vec<SearchTreeNode>, node: SearchTreeNode)
    requires
        node_labels(old(nodes)@).no_duplicates(),
    ensures
        node_labels(final(nodes)@).no_duplicates(),
        node_labels(final(nodes)@).to_set() == node_labels(old(nodes)@).to_set().insert(node@.label()),
        forall|r: Option<Label>, d: Direction| parts_view(final(nodes)@, r, d).nodes
            == #[trigger] parts_view(old(nodes)@, r, d).nodes.insert(node@.label(), node@),
        forall|i: int| 0 <= i < final(nodes)@.len() ==> (#[trigger] final(nodes)@[i])@ == node@
            || (i < old(nodes)@.len() && final(nodes)@[i] == old(nodes)@[i]),
        forall|i: int| 0 <= i < old(nodes)@.len() && old(nodes)@[i]@.label() != node@.label()
            ==> #[trigger] final(nodes)@[i] == old(nodes)@[i],
{
    let ghost old_nodes = nodes@;
    let ghost lab = node@.label();
    let ghost nview = node@;
    let ghost mut pos: int = 0;
    match find_index(nodes, node.label()) {
        Some(i) => {
            proof { pos = i as int; }
            nodes.set(i, node);
            proof {
                assert(node_labels(nodes@) =~= node_labels(old_nodes));
            }
        },
        None => {
            proof { pos = old_nodes.len() as int; }
            nodes.push(node);
            proof {
                assert(node_labels(nodes@) =~= node_labels(old_nodes).push(lab));
            }
        },
    }
    proof {
        let labels = node_labels(nodes@);
        let olabels = node_labels(old_nodes);
        assert(0 <= pos < nodes@.len() && nodes@[pos]@ == nview);
        assert(labels.to_set() =~= olabels.to_set().insert(lab)) by {
            assert forall|l: Label| labels.to_set().contains(l) == olabels.to_set().insert(lab).contains(l) by {
                if labels.contains(l) {
                    let k = labels.index_of(l);
                    if k < olabels.len() && l != lab {
                        assert(olabels[k] == l);
                    }
                }
                if olabels.contains(l) {
                    let k = olabels.index_of(l);
                    if l != lab {
                        assert(labels[k] == l);
                    }
                }
                if l == lab {
                    assert(labels[pos] == lab);
                }
            }
        }
        assert forall|r: Option<Label>, d: Direction| parts_view(nodes@, r, d).nodes
            == #[trigger] parts_view(old_nodes, r, d).nodes.insert(lab, node@) by {
            let nv = parts_view(nodes@, r, d).nodes;
            let ov = parts_view(old_nodes, r, d).nodes.insert(lab, node@);
            lemma_view_dom(nodes@, r, d);
            lemma_view_dom(old_nodes, r, d);
            assert(nv.dom() =~= ov.dom());
            assert forall|l: Label| #[trigger] nv.contains_key(l) implies nv[l] == ov[l] by {
                let k = labels.index_of(l);
                lemma_view_at(nodes@, r, d, k);
                if l != lab {
                    lemma_view_at(old_nodes, r, d, k);
                }
            }
            assert(nv =~= ov);
        }
    }
}

/// The key by which the cheapest label of a vertex is found: the total cost of the
/// incoming edge, and the largest cost for a root.
fn min_cost_ordering(pair: &(&Label, Option<&EdgeTraversal>)) -> (k: i64)
    ensures
        k == match pair.1 {
            None => i64::MAX,
            Some(e) => e.cost.total_cost.0,
        },
{
    match pair.1 {
        None => i64::MAX,
        Some(e) => e.cost.total_cost.0,
    }
}

proof fn lemma_min_cost_key(t: SearchTreeView, l: Label, k: i64)
    requires
        key_of(min_cost_ordering, t, l, k),
    ensures
        k == min_cost_key(t.nodes[l]),
{
    let a = choose|a: (&Label, Option<&EdgeTraversal>)| comparison_arg(t, l, a) && #[trigger] min_cost_ordering.ensures((&a,), k);
    match t.nodes[l] {
        SearchTreeNodeView::Root { .. } => {},
        SearchTreeNodeView::Branch { .. } => {},
    }
}

/// Reverses a sequence of edge traversals.
pub fn reversed_traversals(v: Vec<EdgeTraversal>) -> (r: Vec<EdgeTraversal>)
    ensures
        r@ == v@.reverse(),
        traversal_views(r@) == traversal_views(v@).reverse(),
{
    let ghost v0 = v@;
    let mut v = v;
    let mut r: Vec<EdgeTraversal> = Vec::new();
    while v.len() > 0
        invariant
            v@ == v0.subrange(0, v@.len() as int),
            r@ == v0.subrange(v@.len() as int, v0.len() as int).reverse(),
            v@.len() <= v0.len(),
        decreases v@.len(),
    {
        let ghost n = v@.len();
        let x = v.pop().unwrap();
        r.push(x);
        proof {
            assert(r@ =~= v0.subrange(v@.len() as int, v0.len() as int).reverse());
        }
    }
    proof {
        assert(r@ =~= v0.reverse());
        assert(traversal_views(r@) =~= traversal_views(v0).reverse());
    }
    r
}

/// A search tree that supports lookups by label and by vertex, and parent/child traversal.
/// Designed for route planning algorithms that need both indexing and backtracking.
#[derive(Debug)]
pub struct SearchTree {
    nodes: Vec<SearchTreeNode>,
    root: Option<Label>,
    direction: Direction,
}

impl View for SearchTree {
    type V = SearchTreeView;

    closed spec fn view(&self) -> SearchTreeView {
        parts_view(self.nodes@, self.root, self.direction)
    }
}

impl SearchTree {
    #[verifier::type_invariant]
    closed spec fn inv(self) -> bool {
        parts_inv(self.nodes@, self.root, self.direction)
    }

    /// Moves the parts out of this tree, leaving an empty tree of the same orientation.
    fn take_parts(&mut self) -> (r: (Vec<SearchTreeNode>, Option<Label>, Direction))
        ensures
            parts_inv(r.0@, r.1, r.2),
            parts_view(r.0@, r.1, r.2) == old(self)@,
            r.2 == old(self)@.direction,
    {
        proof { use_type_invariant(&*self); }
        let mut tmp = SearchTree { nodes: Vec::new(), root: None, direction: self.direction };
        std::mem::swap(&mut tmp, self);
        proof { use_type_invariant(&tmp); }
        let SearchTree { nodes, root, direction } = tmp;
        (nodes, root, direction)
    }

    /// Creates a new empty search tree with the given orientation.
    pub fn new(direction: Direction) -> (t: SearchTree)
        ensures
            t@ == empty_tree(direction),
    {
        let t = SearchTree { nodes: Vec::new(), root: None, direction };
        assert(t@.nodes =~= Map::<Label, SearchTreeNodeView>::empty());
        t
    }

    /// Creates a new search tree whose root is `root_label`.
    pub fn with_root(root_label: Label, orientation: Direction) -> (t: SearchTree)
        ensures
            t@ == rooted_at(empty_tree(orientation), root_label),
            t@.nodes.len() == 1,
    {
        let mut tree = Self::new(orientation);
        tree.set_root(root_label);
        proof {
            assert(tree@.nodes.dom() =~= set![root_label]);
        }
        tree
    }

    /// Sets `root_label` as the root: its node becomes a root without children.
    pub fn set_root(&mut self, root_label: Label)
        ensures
            final(self)@ == rooted_at(old(self)@, root_label),
    {
        let (mut nodes, _old_root, direction) = self.take_parts();
        let ghost old_nodes = nodes@;
        let root_node = SearchTreeNode::new_root(root_label, direction);
        let ghost rview = root_node@;
        put_node(&mut nodes, root_node);
        proof {
            let labels = node_labels(nodes@);
            assert(labels.to_set().contains(root_label));
            assert forall|i: int| 0 <= i < nodes@.len() implies
                ((#[trigger] nodes@[i])@.parent() matches Some(p) ==> labels.contains(p)) by {
                if nodes@[i]@ != rview {
                    let p = nodes@[i]@.parent();
                    if p is Some {
                        assert(node_labels(old_nodes).contains(p->0));
                        assert(node_labels(old_nodes).to_set().contains(p->0));
                        assert(labels.to_set().contains(p->0));
                    }
                }
            }
            assert forall|i: int, j: int| 0 <= i < nodes@.len() && 0 <= j < nodes@[i]@.children().len()
                implies labels.contains(#[trigger] nodes@[i]@.children()[j]) by {
                if nodes@[i]@ != rview {
                    let c = nodes@[i]@.children()[j];
                    assert(node_labels(old_nodes).contains(c));
                    assert(node_labels(old_nodes).to_set().contains(c));
                    assert(labels.to_set().contains(c));
                }
            }
            assert(nodes@.len() > 0) by {
                assert(labels.to_set().contains(root_label));
            }
        }
        *self = SearchTree { nodes, root: Some(root_label), direction };
    }

    /// Inserts the trajectory (parent) -[edge]-> (child) as a node of the tree.
    /// An empty tree first takes `parent_label` as its root; otherwise the parent must be in the tree.
    pub fn insert(&mut self, parent_label: Label, edge_traversal: EdgeTraversal, child_label: Label) -> (r: Result<(), SearchTreeError>)
        ensures
            insert_succeeds(old(self)@, parent_label) ==> r is Ok && final(self)@ == inserted(
                old(self)@,
                parent_label,
                edge_traversal@,
                child_label,
            ),
            !insert_succeeds(old(self)@, parent_label) ==> r == Err::<(), SearchTreeError>(
                SearchTreeError::ParentNotFound(parent_label),
            ) && final(self)@ == old(self)@,
    {
        proof { use_type_invariant(&*self); }
        let ghost et_view = edge_traversal@;
        let ghost t0 = self@;
        if !self.contains(&parent_label) {
            if self.is_empty() {
                self.set_root(parent_label);
            } else {
                return Err(SearchTreeError::ParentNotFound(parent_label));
            }
        }
        let ghost base = self@;
        assert(base == (if t0.nodes.contains_key(parent_label) { t0 } else { rooted_at(t0, parent_label) }));
        let (mut nodes, root, direction) = self.take_parts();
        let ghost nodes0 = nodes@;
        let new_node = SearchTreeNode::new_child(child_label, edge_traversal, parent_label, direction);
        let ghost bview = new_node@;
        put_node(&mut nodes, new_node);
        let ghost nodes1 = nodes@;
        proof {
            assert(node_labels(nodes0).contains(parent_label)) by {
                lemma_view_dom(nodes0, root, direction);
                assert(base.nodes.contains_key(parent_label));
                assert(node_labels(nodes0).to_set().contains(parent_label));
            }
        }
        proof {
            let l1 = node_labels(nodes1);
            let l0 = node_labels(nodes0);
            assert(l1.to_set().contains(parent_label));
            assert(l1.to_set().contains(child_label));
            assert forall|l: Label| l0.contains(l) implies l1.contains(l) by {
                assert(l0.to_set().contains(l));
                assert(l1.to_set().contains(l));
            }
            assert(l1.contains(parent_label));
            assert(l1.contains(child_label));
            // the invariant holds for nodes1 as well
            assert forall|i: int| 0 <= i < nodes1.len() implies
                (#[trigger] nodes1[i])@.direction() == direction
                && (nodes1[i]@.parent() matches Some(p) ==> l1.contains(p))
                && nodes1[i]@.children().no_duplicates()
                && (forall|j: int| 0 <= j < nodes1[i]@.children().len() ==> l1.contains(#[trigger] nodes1[i]@.children()[j])) by {
                if nodes1[i]@ != bview {
                    assert(nodes1[i] == nodes0[i]);
                    assert forall|j: int| 0 <= j < nodes1[i]@.children().len() implies l1.contains(#[trigger] nodes1[i]@.children()[j]) by {
                        assert(l0.contains(nodes0[i]@.children()[j]));
                    }
                }
            }
        }
        if parent_label != child_label {
            match find_index(&nodes, &parent_label) {
                Some(ip) => {
                    let ghost pre = nodes@[ip as int];
                    nodes[ip].add_child(child_label);
                    proof {
                        let l1 = node_labels(nodes1);
                        assert(pre@.label() == parent_label);
                        assert(pre == nodes0[ip as int]);
                        lemma_view_at(nodes0, root, direction, ip as int);
                        lemma_with_child(pre@, nodes@[ip as int]@, child_label);
                        assert(nodes@ == nodes1.update(ip as int, nodes@[ip as int]));
                        lemma_update_view(nodes1, ip as int, nodes@[ip as int], root, direction);
                        let l2 = node_labels(nodes@);
                        assert forall|i: int| 0 <= i < nodes@.len() implies
                            (#[trigger] nodes@[i])@.direction() == direction
                            && (nodes@[i]@.parent() matches Some(p) ==> l2.contains(p))
                            && nodes@[i]@.children().no_duplicates()
                            && (forall|j: int| 0 <= j < nodes@[i]@.children().len() ==> l2.contains(#[trigger] nodes@[i]@.children()[j])) by {
                            if i != ip {
                                assert(nodes@[i] == nodes1[i]);
                            } else {
                                assert forall|j: int| 0 <= j < nodes@[i]@.children().len() implies l2.contains(#[trigger] nodes@[i]@.children()[j]) by {
                                    if j < pre@.children().len() {
                                        assert(nodes@[i]@.children()[j] == pre@.children()[j]);
                                    }
                                }
                                if !pre@.children().contains(child_label) {
                                    assert forall|a: int, b: int| 0 <= a < b < nodes@[i]@.children().len()
                                        implies nodes@[i]@.children()[a] != nodes@[i]@.children()[b] by {
                                        if b == pre@.children().len() {
                                            assert(pre@.children()[a] != child_label);
                                        }
                                    }
                                }
                            }
                        }
                    }
                },
                None => {
                    proof {
                        assert(false);
                    }
                },
            }
        }
        proof {
            lemma_view_dom(nodes@, root, direction);
            let l2 = node_labels(nodes@);
            assert(l2.to_set().contains(parent_label));
            assert(nodes@.len() > 0);
            if root is Some {
                assert(node_labels(nodes0).contains(root->0));
                assert(node_labels(nodes0).to_set().contains(root->0));
                assert(node_labels(nodes1).to_set().contains(root->0));
                assert(l2.to_set().contains(root->0));
            }
            assert(root is Some);
            assert(parts_view(nodes@, root, direction) =~= inserted(t0, parent_label, et_view, child_label));
        }
        *self = SearchTree { nodes, root, direction };
        Ok(())
    }

    /// The node labelled `label`, if the tree holds one.
    pub fn get(&self, label: &Label) -> (n: Option<&SearchTreeNode>)
        ensures
            match n {
                Some(node) => self@.nodes.contains_key(*label) && self@.nodes[*label] == node@,
                None => !self@.nodes.contains_key(*label),
            },
    {
        proof { use_type_invariant(self); }
        match find_index(&self.nodes, label) {
            Some(i) => {
                proof { lemma_view_at(self.nodes@, self.root, self.direction, i as int); }
                Some(&self.nodes[i])
            },
            None => None,
        }
    }

    /// Whether the tree holds a node labelled `label`.
    pub fn contains(&self, label: &Label) -> (b: bool)
        ensures
            b == self@.nodes.contains_key(*label),
    {
        self.get(label).is_some()
    }

    /// The number of nodes in the tree.
    pub fn len(&self) -> (n: usize)
        ensures
            n == self@.nodes.len(),
    {
        proof {
            use_type_invariant(self);
            lemma_view_dom(self.nodes@, self.root, self.direction);
        }
        self.nodes.len()
    }

    /// Whether the tree has no nodes; exactly then it has no root.
    pub fn is_empty(&self) -> (b: bool)
        ensures
            b == (self@.nodes.len() == 0),
            b == (self@.root is None),
    {
        proof {
            use_type_invariant(self);
            lemma_view_dom(self.nodes@, self.root, self.direction);
        }
        self.nodes.len() == 0
    }

    /// The orientation of the tree.
    pub fn direction(&self) -> (d: Direction)
        ensures
            d == self@.direction,
    {
        self.direction
    }

    /// The root label, if the tree is not empty.
    pub fn root(&self) -> (r: Option<&Label>)
        ensures
            match r {
                Some(l) => self@.root == Some(*l),
                None => self@.root is None,
            },
    {
        match &self.root {
            Some(l) => Some(l),
            None => None,
        }
    }

    /// The parent node of the node labelled `label`; `None` if the tree does not hold
    /// `label` or its node is a root.
    pub fn get_parent(&self, label: &Label) -> (n: Option<&SearchTreeNode>)
        ensures
            match n {
                Some(node) => self@.nodes.contains_key(*label) && (self@.nodes[*label].parent() matches Some(p)
                    && self@.nodes.contains_key(p) && self@.nodes[p] == node@),
                None => !self@.nodes.contains_key(*label) || self@.nodes[*label] is Root,
            },
    {
        proof { use_type_invariant(self); }
        let node = match self.get(label) {
            Some(node) => node,
            None => return None,
        };
        let parent_label = match node.parent_label() {
            Some(p) => p,
            None => return None,
        };
        proof {
            let k = node_labels(self.nodes@).index_of(*label);
            lemma_view_at(self.nodes@, self.root, self.direction, k);
            assert(node_labels(self.nodes@).contains(*parent_label));
            let kp = node_labels(self.nodes@).index_of(*parent_label);
            lemma_view_at(self.nodes@, self.root, self.direction, kp);
        }
        self.get(parent_label)
    }

    /// The child nodes of the node labelled `label`, in the order in which they were
    /// recorded; empty if the tree does not hold `label`.
    pub fn get_children(&self, label: &Label) -> (r: Vec<&SearchTreeNode>)
        ensures
            self@.nodes.contains_key(*label) ==> r@.len() == self@.nodes[*label].children().len() && forall|i: int|
                0 <= i < r@.len() ==> self@.nodes.contains_key(self@.nodes[*label].children()[i])
                    && (#[trigger] r@[i])@ == self@.nodes[self@.nodes[*label].children()[i]],
            !self@.nodes.contains_key(*label) ==> r@.len() == 0,
    {
        proof { use_type_invariant(self); }
        let mut result: Vec<&SearchTreeNode> = Vec::new();
        match self.get(label) {
            None => {},
            Some(node) => {
                let children = node.children();
                proof {
                    let k = node_labels(self.nodes@).index_of(*label);
                    lemma_view_at(self.nodes@, self.root, self.direction, k);
                    assert(node_labels(self.nodes@)[k] == *label);
                    assert(forall|j: int| 0 <= j < children@.len() ==> node_labels(self.nodes@).contains(#[trigger] self.nodes@[k]@.children()[j]));
                    lemma_view_dom(self.nodes@, self.root, self.direction);
                }
                let mut i: usize = 0;
                while i < children.len()
                    invariant
                        self.inv(),
                        self@.nodes.contains_key(*label),
                        children@ == self@.nodes[*label].children(),
                        forall|j: int| 0 <= j < children@.len() ==> self@.nodes.contains_key(#[trigger] children@[j]),
                        0 <= i <= children@.len(),
                        result@.len() == i,
                        forall|j: int| 0 <= j < i ==> (#[trigger] result@[j])@ == self@.nodes[children@[j]],
                    decreases children@.len() - i,
                {
                    match self.get(&children[i]) {
                        Some(c) => {
                            result.push(c);
                        },
                        None => {
                            proof { assert(self@.nodes.contains_key(children@[i as int])); }
                        },
                    }
                    i = i + 1;
                }
            },
        }
        result
    }

    /// The labels of the children of the node labelled `label`, in the order in which they
    /// were recorded; empty if the tree does not hold `label`.
    pub fn get_child_labels(&self, label: &Label) -> (r: Vec<Label>)
        ensures
            self@.nodes.contains_key(*label) ==> r@ == self@.nodes[*label].children(),
            !self@.nodes.contains_key(*label) ==> r@.len() == 0,
    {
        match self.get(label) {
            Some(node) => {
                let c = node.children().clone();
                proof { assert(c@ =~= node@.children()); }
                c
            },
            None => Vec::new(),
        }
    }

    /// All labels of the tree, each once.
    pub fn labels(&self) -> (r: Vec<&Label>)
        ensures
            r@.no_duplicates(),
            forall|l: Label| r@.contains(&l) <==> self@.nodes.contains_key(l),
    {
        proof { use_type_invariant(self); }
        let mut result: Vec<&Label> = Vec::new();
        let mut i: usize = 0;
        while i < self.nodes.len()
            invariant
                self.inv(),
                0 <= i <= self.nodes@.len(),
                result@.len() == i,
                forall|j: int| 0 <= j < i ==> *(#[trigger] result@[j]) == node_labels(self.nodes@)[j],
            decreases self.nodes@.len() - i,
        {
            result.push(self.nodes[i].label());
            i = i + 1;
        }
        proof {
            let labels = node_labels(self.nodes@);
            lemma_view_dom(self.nodes@, self.root, self.direction);
            assert forall|a: int, b: int| 0 <= a < b < result@.len() implies result@[a] != result@[b] by {
                assert(labels[a] != labels[b]);
            }
            assert forall|l: Label| result@.contains(&l) <==> self@.nodes.contains_key(l) by {
                assert(self@.nodes.contains_key(l) == labels.to_set().contains(l));
                if result@.contains(&l) {
                    let k = choose|k: int| 0 <= k < result@.len() && result@[k] == l;
                    assert(labels[k] == l);
                }
                if labels.contains(l) {
                    let k = labels.index_of(l);
                    assert(result@[k] == l);
                }
            }
        }
        result
    }

    /// All labels of the tree, each once (same as [`SearchTree::labels`]).
    pub fn keys(&self) -> (r: Vec<&Label>)
        ensures
            r@.no_duplicates(),
            forall|l: Label| r@.contains(&l) <==> self@.nodes.contains_key(l),
    {
        self.labels()
    }

    /// All nodes of the tree, each once.
    pub fn nodes(&self) -> (r: Vec<&SearchTreeNode>)
        ensures
            r@.len() == self@.nodes.len(),
            self@.nodes.dom().finite(),
            forall|i: int, j: int| 0 <= i < j < r@.len() ==> (#[trigger] r@[i])@.label() != (#[trigger] r@[j])@.label(),
            forall|i: int| 0 <= i < r@.len() ==> self@.nodes.contains_key((#[trigger] r@[i])@.label())
                && self@.nodes[r@[i]@.label()] == r@[i]@,
    {
        proof {
            use_type_invariant(self);
            lemma_view_dom(self.nodes@, self.root, self.direction);
        }
        let mut result: Vec<&SearchTreeNode> = Vec::new();
        let mut i: usize = 0;
        while i < self.nodes.len()
            invariant
                self.inv(),
                0 <= i <= self.nodes@.len(),
                result@.len() == i,
                forall|j: int| 0 <= j < i ==> #[trigger] result@[j] == self.nodes@[j],
            decreases self.nodes@.len() - i,
        {
            result.push(&self.nodes[i]);
            i = i + 1;
        }
        proof {
            assert forall|a: int, b: int| 0 <= a < b < result@.len() implies (#[trigger] result@[a])@.label() != (#[trigger] result@[b])@.label() by {
                assert(node_labels(self.nodes@)[a] == result@[a]@.label());
                assert(node_labels(self.nodes@)[b] == result@[b]@.label());
            }
            assert forall|a: int| 0 <= a < result@.len() implies self@.nodes.contains_key((#[trigger] result@[a])@.label())
                && self@.nodes[result@[a]@.label()] == result@[a]@ by {
                lemma_view_at(self.nodes@, self.root, self.direction, a);
            }
        }
        result
    }

    /// All nodes of the tree, each once (same as [`SearchTree::nodes`]).
    pub fn values(&self) -> (r: Vec<&SearchTreeNode>)
        ensures
            r@.len() == self@.nodes.len(),
            forall|i: int, j: int| 0 <= i < j < r@.len() ==> (#[trigger] r@[i])@.label() != (#[trigger] r@[j])@.label(),
            forall|i: int| 0 <= i < r@.len() ==> self@.nodes.contains_key((#[trigger] r@[i])@.label())
                && self@.nodes[r@[i]@.label()] == r@[i]@,
    {
        self.nodes()
    }

    /// All (label, node) pairs of the tree, each once.
    pub fn iter(&self) -> (r: Vec<(&Label, &SearchTreeNode)>)
        ensures
            r@.len() == self@.nodes.len(),
            self@.nodes.dom().finite(),
            forall|i: int, j: int| 0 <= i < j < r@.len() ==> (#[trigger] r@[i]).0 != (#[trigger] r@[j]).0,
            forall|i: int| 0 <= i < r@.len() ==> (#[trigger] r@[i]).1@.label() == *r@[i].0
                && self@.nodes.contains_key(*r@[i].0) && self@.nodes[*r@[i].0] == r@[i].1@,
    {
        let ns = self.nodes();
        let mut result: Vec<(&Label, &SearchTreeNode)> = Vec::new();
        let mut i: usize = 0;
        while i < ns.len()
            invariant
                0 <= i <= ns@.len(),
                result@.len() == i,
                forall|j: int| 0 <= j < i ==> (#[trigger] result@[j]).1 == ns@[j] && *result@[j].0 == ns@[j]@.label(),
            decreases ns@.len() - i,
        {
            let n: &SearchTreeNode = ns[i];
            result.push((n.label(), n));
            i = i + 1;
        }
        proof {
            assert forall|a: int, b: int| 0 <= a < b < result@.len() implies (#[trigger] result@[a]).0 != (#[trigger] result@[b]).0 by {
                assert(ns@[a]@.label() != ns@[b]@.label());
            }
        }
        result
    }

    /// The labels of the tree that refer to vertex `vertex`, each once; `None` if there are none.
    pub fn get_labels(&self, vertex: VertexId) -> (r: Option<Vec<Label>>)
        ensures
            r is None <==> !has_vertex(self@, vertex),
            r matches Some(ls) ==> ls@.no_duplicates() && forall|l: Label|
                ls@.contains(l) <==> (self@.nodes.contains_key(l) && l.vertex() == vertex),
    {
        proof {
            use_type_invariant(self);
            lemma_view_dom(self.nodes@, self.root, self.direction);
        }
        let ghost labels = node_labels(self.nodes@);
        let mut result: Vec<Label> = Vec::new();
        let mut i: usize = 0;
        while i < self.nodes.len()
            invariant
                self.inv(),
                labels == node_labels(self.nodes@),
                0 <= i <= self.nodes@.len(),
                result@.no_duplicates(),
                forall|l: Label| result@.contains(l) <==> (exists|j: int| 0 <= j < i && #[trigger] labels[j] == l && l.vertex() == vertex),
            decreases self.nodes@.len() - i,
        {
            let l = *self.nodes[i].label();
            if l.vertex_id().0 == vertex.0 {
                proof {
                    if result@.contains(l) {
                        let j = choose|j: int| 0 <= j < i && #[trigger] labels[j] == l && l.vertex() == vertex;
                        assert(labels[j] == labels[i as int]);
                    }
                }
                let ghost prev = result@;
                result.push(l);
                proof {
                    assert(result@ == prev.push(l));
                    assert forall|l2: Label| result@.contains(l2) <==> (exists|j: int| 0 <= j < i + 1 && #[trigger] labels[j] == l2 && l2.vertex() == vertex) by {
                        if l2 == l {
                            assert(labels[i as int] == l2);
                            assert(result@[result@.len() - 1] == l2);
                        } else {
                            if result@.contains(l2) {
                                let k = choose|k: int| 0 <= k < result@.len() && result@[k] == l2;
                                assert(prev[k] == l2);
                                assert(prev.contains(l2));
                            }
                            if exists|j: int| 0 <= j < i + 1 && #[trigger] labels[j] == l2 && l2.vertex() == vertex {
                                let j = choose|j: int| 0 <= j < i + 1 && #[trigger] labels[j] == l2 && l2.vertex() == vertex;
                                assert(j < i);
                                assert(prev.contains(l2));
                                let k = choose|k: int| 0 <= k < prev.len() && prev[k] == l2;
                                assert(result@[k] == l2);
                            }
                        }
                    }
                }
            } else {
                proof {
                    assert forall|l2: Label| result@.contains(l2) <==> (exists|j: int| 0 <= j < i + 1 && #[trigger] labels[j] == l2 && l2.vertex() == vertex) by {
                        if exists|j: int| 0 <= j < i + 1 && #[trigger] labels[j] == l2 && l2.vertex() == vertex {
                            let j = choose|j: int| 0 <= j < i + 1 && #[trigger] labels[j] == l2 && l2.vertex() == vertex;
                            assert(j != i);
                        }
                    }
                }
            }
            i = i + 1;
        }
        proof {
            assert forall|l: Label| result@.contains(l) <==> (self@.nodes.contains_key(l) && l.vertex() == vertex) by {
                assert(self@.nodes.contains_key(l) == labels.to_set().contains(l));
                if labels.contains(l) && l.vertex() == vertex {
                    let k = labels.index_of(l);
                    assert(labels[k] == l);
                }
            }
        }
        if result.len() == 0 {
            proof {
                if has_vertex(self@, vertex) {
                    let l = choose|l: Label| #[trigger] self@.nodes.contains_key(l) && l.vertex() == vertex;
                    assert(result@.contains(l));
                }
            }
            None
        } else {
            proof {
                assert(result@.contains(result@[0]));
                assert(self@.nodes.contains_key(result@[0]));
            }
            Some(result)
        }
    }

    /// The label of vertex `vertex` whose node has the least incoming-edge total cost
    /// (a root counts as the largest cost); `None` if the tree has no label of `vertex`.
    pub fn get_min_cost_label(&self, vertex: VertexId) -> (r: Option<&Label>)
        ensures
            r is None <==> !has_vertex(self@, vertex),
            r matches Some(l) ==> is_min_cost_label(self@, vertex, *l),
    {
        let r = self.get_label_by(vertex, min_cost_ordering, true);
        proof {
            let t = self@;
            if let Some(l) = r {
                let k = choose|k: i64| #[trigger] key_of(min_cost_ordering, t, *l, k)
                    && forall|l2: Label| #[trigger] t.nodes.contains_key(l2) && l2.vertex() == vertex
                        ==> exists|k2: i64| #[trigger] key_of(min_cost_ordering, t, l2, k2) && ranks_first(k, k2, true);
                lemma_min_cost_key(t, *l, k);
                assert forall|l2: Label| #[trigger] t.nodes.contains_key(l2) && l2.vertex() == vertex
                    implies min_cost_key(t.nodes[*l]) <= min_cost_key(t.nodes[l2]) by {
                    let k2 = choose|k2: i64| #[trigger] key_of(min_cost_ordering, t, l2, k2) && ranks_first(k, k2, true);
                    lemma_min_cost_key(t, l2, k2);
                }
            }
        }
        r
    }

    /// Picks, among the labels of `vertex`, one whose key under `compare` is least
    /// (`min`) or greatest (not `min`); the comparison sees each label with its node's
    /// incoming edge. `None` if the tree has no label of `vertex`.
    pub fn get_label_by<F: Fn(&(&Label, Option<&EdgeTraversal>)) -> i64>(&self, vertex: VertexId, compare: F, min: bool) -> (r: Option<&Label>)
        requires
            forall|a: &(&Label, Option<&EdgeTraversal>)| #[trigger] compare.requires((a,)),
        ensures
            r is None <==> !has_vertex(self@, vertex),
            r matches Some(l) ==> is_label_by(compare, self@, vertex, *l, min),
    {
        proof {
            use_type_invariant(self);
            lemma_view_dom(self.nodes@, self.root, self.direction);
        }
        let ghost labels = node_labels(self.nodes@);
        let ghost t = self@;
        let mut best: Option<usize> = None;
        let mut best_key: i64 = 0;
        let mut i: usize = 0;
        while i < self.nodes.len()
            invariant
                self.inv(),
                t == self@,
                labels == node_labels(self.nodes@),
                0 <= i <= self.nodes@.len(),
                forall|a: &(&Label, Option<&EdgeTraversal>)| #[trigger] compare.requires((a,)),
                best is None ==> forall|j: int| 0 <= j < i ==> labels[j].vertex() != vertex,
                best matches Some(b) ==> b < i && labels[b as int].vertex() == vertex
                    && key_of(compare, t, labels[b as int], best_key)
                    && forall|j: int| 0 <= j < i && labels[j].vertex() == vertex
                        ==> exists|k2: i64| #[trigger] key_of(compare, t, labels[j], k2) && ranks_first(best_key, k2, min),
            decreases self.nodes@.len() - i,
        {
            let node = &self.nodes[i];
            if node.vertex_id().0 == vertex.0 {
                let arg = (node.label(), node.incoming_edge());
                let key = compare(&arg);
                proof {
                    lemma_view_at(self.nodes@, self.root, self.direction, i as int);
                    assert(labels[i as int] == node@.label());
                    assert(comparison_arg(t, labels[i as int], arg));
                    assert(key_of(compare, t, labels[i as int], key));
                }
                let better = match best {
                    None => true,
                    Some(_) => if min { key < best_key } else { key >= best_key },
                };
                if better {
                    best = Some(i);
                    best_key = key;
                }
            }
            i = i + 1;
        }
        match best {
            None => {
                proof {
                    if has_vertex(self@, vertex) {
                        let l = choose|l: Label| #[trigger] self@.nodes.contains_key(l) && l.vertex() == vertex;
                        assert(labels.to_set().contains(l));
                        let k = labels.index_of(l);
                        assert(labels[k] == l);
                    }
                }
                None
            },
            Some(b) => {
                proof {
                    lemma_view_at(self.nodes@, self.root, self.direction, b as int);
                    assert forall|l2: Label| #[trigger] t.nodes.contains_key(l2) && l2.vertex() == vertex
                        implies exists|k2: i64| #[trigger] key_of(compare, t, l2, k2) && ranks_first(best_key, k2, min) by {
                        assert(labels.to_set().contains(l2));
                        let k = labels.index_of(l2);
                        assert(labels[k] == l2);
                    }
                    assert(key_of(compare, t, labels[b as int], best_key));
                }
                Some(self.nodes[b].label())
            },
        }
    }

    /// Reconstructs the path of edge traversals between the root and the node labelled
    /// `target_label`, walking up the parent chain. With `Some(depth)`, at most `depth`
    /// edges are collected (those nearest the target). Forward trees give the path from
    /// the root toward the target; reverse trees give it from the target toward the root.
    /// Without a depth, a parent chain that never reaches a root is reported as an
    /// invalid branch structure.
    pub fn reconstruct_path(&self, target_label: &Label, depth: Option<u64>) -> (r: Result<Vec<EdgeTraversal>, SearchTreeError>)
        ensures
            path_result_matches(self@, *target_label, depth, r),
    {
        proof {
            use_type_invariant(self);
            lemma_view_dom(self.nodes@, self.root, self.direction);
        }
        let ghost m = self@.nodes;
        let ghost fuel: nat = match depth {
            Some(d) => d as nat,
            None => full_walk_fuel(self@),
        };
        let mut path: Vec<EdgeTraversal> = Vec::new();
        let mut current: Label = *target_label;
        let mut steps: u128 = 0;
        loop
            invariant_except_break
                self.inv(),
                m == self@.nodes,
                m.len() == self.nodes@.len(),
                fuel == (match depth {
                    Some(d) => d as nat,
                    None => full_walk_fuel(self@),
                }),
                steps <= fuel,
                walk(m, *target_label, fuel) == (traversal_views(path@) + walk(m, current, (fuel - steps) as nat).0,
                    walk(m, current, (fuel - steps) as nat).1),
            ensures
                walk(m, *target_label, fuel).0 == traversal_views(path@),
                walk(m, *target_label, fuel).1 is Root || (walk(m, *target_label, fuel).1 is OutOfSteps && depth is Some),
            decreases fuel - steps,
        {
            let out_of_steps = match depth {
                Some(d) => steps >= d as u128,
                None => steps > self.nodes.len() as u128,
            };
            if out_of_steps {
                proof {
                    assert(steps == fuel);
                    assert(walk(m, current, 0).0 =~= Seq::<EdgeTraversalView>::empty());
                    assert(traversal_views(path@) + Seq::<EdgeTraversalView>::empty() =~= traversal_views(path@));
                }
                if depth.is_none() {
                    return Err(SearchTreeError::InvalidBranchStructure(
                        String::from_str("the parent chain of the target label never reaches a root"),
                    ));
                }
                break;
            }
            match find_index(&self.nodes, &current) {
                None => {
                    proof {
                        lemma_view_dom(self.nodes@, self.root, self.direction);
                        assert(!m.contains_key(current)) by {
                            assert(!node_labels(self.nodes@).to_set().contains(current));
                        }
                    }
                    return Err(SearchTreeError::LabelNotFound(current));
                },
                Some(i) => {
                    proof { lemma_view_at(self.nodes@, self.root, self.direction, i as int); }
                    match &self.nodes[i] {
                        SearchTreeNode::Root { .. } => {
                            proof {
                                assert(traversal_views(path@) + Seq::<EdgeTraversalView>::empty() =~= traversal_views(path@));
                            }
                            break;
                        },
                        SearchTreeNode::Branch { incoming_edge, parent, .. } => {
                            let ghost prev = path@;
                            let ghost rest = walk(m, *parent, (fuel - steps - 1) as nat);
                            path.push(incoming_edge.clone());
                            proof {
                                assert(traversal_views(path@) =~= traversal_views(prev).push(incoming_edge@));
                                assert(traversal_views(prev) + (seq![incoming_edge@] + rest.0) =~= traversal_views(path@) + rest.0);
                            }
                            current = *parent;
                        },
                    }
                },
            }
            steps = steps + 1;
        }
        match self.direction {
            Direction::Forward => Ok(reversed_traversals(path)),
            Direction::Reverse => Ok(path),
        }
    }

    /// Backtracks from the cheapest label of `leaf_vertex`, collecting at most `depth`
    /// edges, in the order of the tree's orientation.
    pub fn backtrack_with_depth(&self, leaf_vertex: VertexId, depth: u64) -> (r: Result<Vec<EdgeTraversal>, SearchTreeError>)
        ensures
            !has_vertex(self@, leaf_vertex) ==> r == Err::<Vec<EdgeTraversal>, SearchTreeError>(SearchTreeError::VertexNotFound(leaf_vertex)),
            has_vertex(self@, leaf_vertex) ==> exists|l: Label| is_min_cost_label(self@, leaf_vertex, l)
                && path_result_matches(self@, l, Some(depth), r),
    {
        match self.get_min_cost_label(leaf_vertex) {
            None => Err(SearchTreeError::VertexNotFound(leaf_vertex)),
            Some(target_label) => self.reconstruct_path(target_label, Some(depth)),
        }
    }

    /// Backtracks from the cheapest label of `leaf_vertex` to the root, giving the path in
    /// the order of the tree's orientation: root to leaf for forward trees, leaf to root
    /// for reverse trees.
    pub fn backtrack(&self, leaf_vertex: VertexId) -> (r: Result<Vec<EdgeTraversal>, SearchTreeError>)
        ensures
            !has_vertex(self@, leaf_vertex) ==> r == Err::<Vec<EdgeTraversal>, SearchTreeError>(SearchTreeError::VertexNotFound(leaf_vertex)),
            has_vertex(self@, leaf_vertex) ==> exists|l: Label| is_min_cost_label(self@, leaf_vertex, l)
                && path_result_matches(self@, l, None, r),
    {
        match self.get_min_cost_label(leaf_vertex) {
            None => Err(SearchTreeError::VertexNotFound(leaf_vertex)),
            Some(target_label) => self.reconstruct_path(target_label, None),
        }
    }

    /// Backtracks, as `backtrack` does, from the source vertex of the edge `target`
    /// of `graph`; an edge-oriented search ends there.
    pub fn backtrack_edge_oriented_route(&self, target: (EdgeListId, EdgeId), graph: &Graph) -> (r: Result<Vec<EdgeTraversal>, SearchTreeError>)
        ensures
            match graph.edge_at(target.0, target.1) {
                None => r == Err::<Vec<EdgeTraversal>, SearchTreeError>(
                    SearchTreeError::NetworkError(graph.edge_error(target.0, target.1))),
                Some(e) => backtrack_matches(self@, e.src_vertex_id, r),
            },
    {
        let (d_el, d_e) = target;
        match graph.src_vertex_id(&d_el, &d_e) {
            Err(e) => Err(SearchTreeError::NetworkError(e)),
            Ok(d_v) => self.backtrack(d_v),
        }
    }
}

impl Default for SearchTree {
    /// An empty forward tree.
    fn default() -> (t: SearchTree)
        ensures
            t@ == empty_tree(Direction::Forward),
    {
        SearchTree::new(Direction::Forward)
    }
}

} // verus!
