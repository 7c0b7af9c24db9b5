use vstd::prelude::*;
use crate::label::Label;
use crate::search::edge_traversal::EdgeTraversal;

verus! {

/// A branch of a minimum search tree: the label it was reached from and the traversal
/// that reached it.
#[derive(Debug)]
pub struct SearchTreeBranch {
    pub terminal_label: Label,
    pub edge_traversal: EdgeTraversal,
}

} // verus!
