use vstd::prelude::*;
use crate::label::Label;
use crate::network::VertexId;
use crate::search::direction::Direction;
use crate::search::edge_traversal::{EdgeTraversal, EdgeTraversalView};

verus! {

/// The mathematical value of a search tree node.
pub enum SearchTreeNodeView {
    Root { label: Label, children: Seq<Label>, direction: Direction },
    Branch {
        label: Label,
        incoming_edge: EdgeTraversalView,
        parent: Label,
        children: Seq<Label>,
        direction: Direction,
    },
}

impl SearchTreeNodeView {
    pub open spec fn label(self) -> Label {
        match self {
            SearchTreeNodeView::Root { label, .. } => label,
            SearchTreeNodeView::Branch { label, .. } => label,
        }
    }

    pub open spec fn children(self) -> Seq<Label> {
        match self {
            SearchTreeNodeView::Root { children, .. } => children,
            SearchTreeNodeView::Branch { children, .. } => children,
        }
    }

    pub open spec fn direction(self) -> Direction {
        match self {
            SearchTreeNodeView::Root { direction, .. } => direction,
            SearchTreeNodeView::Branch { direction, .. } => direction,
        }
    }

    pub open spec fn parent(self) -> Option<Label> {
        match self {
            SearchTreeNodeView::Root { .. } => None,
            SearchTreeNodeView::Branch { parent, .. } => Some(parent),
        }
    }

    pub open spec fn edge(self) -> Option<EdgeTraversalView> {
        match self {
            SearchTreeNodeView::Root { .. } => None,
            SearchTreeNodeView::Branch { incoming_edge, .. } => Some(incoming_edge),
        }
    }
}

/// A node in the search tree: its label, the labels of its children, and,
/// unless it is the root, its parent and the edge traversal that reached it.
#[derive(Debug)]
pub enum SearchTreeNode {
    Root { label: Label, children: Vec<Label>, direction: Direction },
    Branch {
        label: Label,
        incoming_edge: EdgeTraversal,
        parent: Label,
        children: Vec<Label>,
        direction: Direction,
    },
}

impl View for SearchTreeNode {
    type V = SearchTreeNodeView;

    open spec fn view(&self) -> SearchTreeNodeView {
        match self {
            SearchTreeNode::Root { label, children, direction } => SearchTreeNodeView::Root {
                label: *label,
                children: children@,
                direction: *direction,
            },
            SearchTreeNode::Branch { label, incoming_edge, parent, children, direction } =>
                SearchTreeNodeView::Branch {
                label: *label,
                incoming_edge: incoming_edge@,
                parent: *parent,
                children: children@,
                direction: *direction,
            },
        }
    }
}

/// Whether `v` holds `l`.
pub fn labels_contain(v: &Vec<Label>, l: &Label) -> (b: bool)
    ensures
        b == v@.contains(*l),
{
    let mut i: usize = 0;
    while i < v.len()
        invariant
            0 <= i <= v@.len(),
            forall|j: int| 0 <= j < i ==> v@[j] != *l,
        decreases v@.len() - i,
    {
        if v[i] == *l {
            return true;
        }
        i = i + 1;
    }
    false
}

impl SearchTreeNode {
    /// A root node with the given label and no children.
    pub fn new_root(label: Label, direction: Direction) -> (n: SearchTreeNode)
        ensures
            n@ == (SearchTreeNodeView::Root { label, children: Seq::empty(), direction }),
    {
        let children: Vec<Label> = Vec::new();
        SearchTreeNode::Root { label, children, direction }
    }

    /// A branch node reached from `parent` through `edge_traversal`, with no children.
    pub fn new_child(label: Label, edge_traversal: EdgeTraversal, parent: Label, direction: Direction) -> (n: SearchTreeNode)
        ensures
            n@ == (SearchTreeNodeView::Branch {
                label,
                incoming_edge: edge_traversal@,
                parent,
                children: Seq::empty(),
                direction,
            }),
    {
        let children: Vec<Label> = Vec::new();
        SearchTreeNode::Branch { label, incoming_edge: edge_traversal, parent, children, direction }
    }

    /// The label of this node.
    pub fn label(&self) -> (l: &Label)
        ensures
            *l == self@.label(),
    {
        match self {
            SearchTreeNode::Root { label, .. } => label,
            SearchTreeNode::Branch { label, .. } => label,
        }
    }

    /// The vertex of this node's label.
    pub fn vertex_id(&self) -> (v: &VertexId)
        ensures
            *v == self@.label().vertex(),
    {
        self.label().vertex_id()
    }

    /// The labels of this node's children.
    pub fn children(&self) -> (c: &Vec<Label>)
        ensures
            c@ == self@.children(),
    {
        match self {
            SearchTreeNode::Root { children, .. } => children,
            SearchTreeNode::Branch { children, .. } => children,
        }
    }

    /// Records `child` as a child of this node, unless it is one already.
    pub fn add_child(&mut self, child: Label)
        ensures
            final(self)@.label() == old(self)@.label(),
            final(self)@.direction() == old(self)@.direction(),
            final(self)@.parent() == old(self)@.parent(),
            final(self)@.edge() == old(self)@.edge(),
            final(self)@.children() == (if old(self)@.children().contains(child) {
                old(self)@.children()
            } else {
                old(self)@.children().push(child)
            }),
    {
        match self {
            SearchTreeNode::Root { children, .. } => {
                if !labels_contain(children, &child) {
                    children.push(child);
                }
            },
            SearchTreeNode::Branch { children, .. } => {
                if !labels_contain(children, &child) {
                    children.push(child);
                }
            },
        }
    }

    /// The label of this node's parent; `None` for the root.
    pub fn parent_label(&self) -> (p: Option<&Label>)
        ensures
            match p {
                Some(l) => self@.parent() == Some(*l),
                None => self@.parent() is None,
            },
    {
        match self {
            SearchTreeNode::Root { .. } => None,
            SearchTreeNode::Branch { parent, .. } => Some(parent),
        }
    }

    /// The edge traversal that reached this node; `None` for the root.
    pub fn incoming_edge(&self) -> (e: Option<&EdgeTraversal>)
        ensures
            match e {
                Some(et) => self@.edge() == Some(et@),
                None => self@.edge() is None,
            },
    {
        match self {
            SearchTreeNode::Root { .. } => None,
            SearchTreeNode::Branch { incoming_edge, .. } => Some(incoming_edge),
        }
    }

    /// Whether this node is a root.
    pub fn is_root(&self) -> (b: bool)
        ensures
            b == (self@ is Root),
    {
        match self {
            SearchTreeNode::Root { .. } => true,
            SearchTreeNode::Branch { .. } => false,
        }
    }

    /// The orientation of the tree this node belongs to.
    pub fn direction(&self) -> (d: Direction)
        ensures
            d == self@.direction(),
    {
        match self {
            SearchTreeNode::Root { direction, .. } => *direction,
            SearchTreeNode::Branch { direction, .. } => *direction,
        }
    }
}

} // verus!
