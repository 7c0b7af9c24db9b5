use vstd::prelude::*;
use crate::cost::{Cost, StateVariable};
use crate::label::Label;
use crate::network::{EdgeId, EdgeListId, VertexId};
use crate::priority_queue::InternalPriorityQueue;
use crate::search::search_error::SearchError;
use crate::search::search_tree::{SearchTree, SearchTreeView};

verus! {

/// The label popped from the frontier with the edge that reached it and the
/// search state there.
#[derive(Debug)]
pub struct FrontierInstance {
    pub prev_label: Label,
    pub prev_edge: Option<(EdgeListId, EdgeId)>,
    pub prev_state: Vec<StateVariable>,
}

/// Whether `l` is a cheapest key of the queue contents `m`.
pub open spec fn is_cheapest(m: Map<Label, Cost>, l: Label) -> bool {
    &&& m.contains_key(l)
    &&& forall|k: Label| #[trigger] m.contains_key(k) ==> m[l].0 <= m[k].0
}

/// What the frontier instance of label `l` holds: the incoming edge of `l`'s node in
/// tree `t` and the state after it, or no edge and the initial state `init` when `l`
/// has no incoming edge in `t`.
pub open spec fn frontier_for(fi: FrontierInstance, l: Label, t: SearchTreeView, init: Seq<StateVariable>) -> bool {
    let edge = if t.nodes.contains_key(l) { t.nodes[l].edge() } else { None };
    &&& fi.prev_label == l
    &&& match edge {
        Some(et) => fi.prev_edge == Some((et.edge_list_id, et.edge_id)) && fi.prev_state@ == et.result_state,
        None => fi.prev_edge is None && fi.prev_state@ == init,
    }
}

impl FrontierInstance {
    /// Pops the cheapest label of the frontier and gathers what the search needs to
    /// expand it. `Ok(None)` when the frontier is empty in a search without target,
    /// or when the popped label is at the target; an error when the frontier is empty
    /// in a search with a target, as no path exists then.
    pub fn pop_new(
        frontier: &mut InternalPriorityQueue<Label>,
        source: VertexId,
        target: Option<VertexId>,
        solution: &SearchTree,
        initial_state: &Vec<StateVariable>,
    ) -> (r: Result<Option<FrontierInstance>, SearchError>)
        ensures
            old(frontier)@.len() == 0 ==> forall|k: Label| !(#[trigger] old(frontier)@.contains_key(k)),
            old(frontier)@.len() == 0 ==> final(frontier)@ == old(frontier)@ && match target {
                Some(t) => r == Err::<Option<FrontierInstance>, SearchError>(
                    SearchError::NoPathExistsBetweenVertices(source, t, solution@.nodes.len() as usize)),
                None => r == Ok::<Option<FrontierInstance>, SearchError>(None),
            },
            old(frontier)@.len() > 0 ==> exists|l: Label| #[trigger] is_cheapest(old(frontier)@, l)
                && final(frontier)@ == old(frontier)@.remove(l)
                && if target == Some(l.vertex()) {
                    r == Ok::<Option<FrontierInstance>, SearchError>(None)
                } else {
                    r matches Ok(Some(fi)) && frontier_for(fi, l, solution@, initial_state@)
                },
    {
        let popped = frontier.pop();
        proof {
            if old(frontier)@.len() == 0 {
                old(frontier)@.dom().lemma_len0_is_empty();
                assert forall|k: Label| !(#[trigger] old(frontier)@.contains_key(k)) by {
                    assert(!Set::<Label>::empty().contains(k));
                }
            }
            if let Some(e) = popped {
                assert(is_cheapest(old(frontier)@, e.0));
            }
        }
        match popped {
            None => match target {
                Some(target_vertex_id) => Err(SearchError::NoPathExistsBetweenVertices(source, target_vertex_id, solution.len())),
                None => Ok(None),
            },
            Some((prev_label, _)) => {
                let at_target = match target {
                    Some(t) => prev_label.vertex_id().0 == t.0,
                    None => false,
                };
                if at_target {
                    proof { assert(target == Some(prev_label.vertex())); }
                    return Ok(None);
                }
                proof { assert(target != Some(prev_label.vertex())); }
                let prev_edge_traversal_opt = match solution.get(&prev_label) {
                    Some(n) => n.incoming_edge(),
                    None => None,
                };
                let (prev_edge, prev_state) = match prev_edge_traversal_opt {
                    None => {
                        let s = initial_state.clone();
                        proof { assert(s@ =~= initial_state@); }
                        (None, s)
                    },
                    Some(et) => {
                        let s = et.result_state.clone();
                        proof { assert(s@ =~= et.result_state@); }
                        (Some((et.edge_list_id, et.edge_id)), s)
                    },
                };
                Ok(Some(FrontierInstance { prev_label, prev_edge, prev_state }))
            },
        }
    }
}

} // verus!
