use vstd::prelude::*;
use crate::cost::{StateVariable, TraversalCost, TraversalCostView};
use crate::model::constraint::ConstraintModel;
use crate::model::cost_model::{cost_defined, state_cost, CostModel};
use crate::model::label_model::LabelModel;
use crate::model::state::{StateModel, StateModelError};
use crate::model::traversal::TraversalModel;
use crate::network::{Edge, EdgeId, EdgeListId, Vertex};
use crate::search::search_error::SearchError;
use crate::search::search_instance::SearchInstance;
use crate::search::search_tree::{SearchTree, SearchTreeView};
use crate::text::{appended, decimal, i64_decimal, signed_decimal, u64_decimal};

verus! {

/// The outcome of traversing one edge: which edge, at what cost, and the
/// search state after the traversal.
#[derive(Debug)]
pub struct EdgeTraversal {
    pub edge_list_id: EdgeListId,
    pub edge_id: EdgeId,
    pub cost: TraversalCost,
    pub result_state: Vec<StateVariable>,
}

/// The mathematical value of an edge traversal.
pub struct EdgeTraversalView {
    pub edge_list_id: EdgeListId,
    pub edge_id: EdgeId,
    pub cost: TraversalCostView,
    pub result_state: Seq<StateVariable>,
}

impl View for EdgeTraversal {
    type V = EdgeTraversalView;

    open spec fn view(&self) -> EdgeTraversalView {
        EdgeTraversalView {
            edge_list_id: self.edge_list_id,
            edge_id: self.edge_id,
            cost: self.cost@,
            result_state: self.result_state@,
        }
    }
}

impl Clone for EdgeTraversal {
    fn clone(&self) -> (r: Self)
        ensures
            r@ == self@,
    {
        let rs = self.result_state.clone();
        proof {
            assert(rs@ =~= self.result_state@);
        }
        EdgeTraversal {
            edge_list_id: self.edge_list_id,
            edge_id: self.edge_id,
            cost: self.cost.clone(),
            result_state: rs,
        }
    }
}

/// What a successful traversal of `edge` yields under cost model `cm`: the edge's ids,
/// and a cost that is the weighted sum of the resulting state.
pub open spec fn traversal_outcome(et: EdgeTraversal, edge: Edge, cm: CostModel) -> bool {
    &&& et.edge_list_id == edge.edge_list_id
    &&& et.edge_id == edge.edge_id
    &&& cost_defined(cm.weights@, et.result_state@)
    &&& et.cost.objective_cost.0 == state_cost(cm.weights@, et.result_state@)
    &&& et.cost.total_cost == et.cost.objective_cost
}

/// How one state variable is written in a description: `StateVariable(<value>)`.
pub open spec fn state_variable_text(v: StateVariable) -> Seq<char> {
    "StateVariable("@ + signed_decimal(v.0 as int) + ")"@
}

/// The state variables written one after another, separated by `, `.
pub open spec fn state_items_text(s: Seq<StateVariable>) -> Seq<char>
    decreases s.len(),
{
    if s.len() == 0 {
        Seq::empty()
    } else if s.len() == 1 {
        state_variable_text(s[0])
    } else {
        state_items_text(s.drop_last()) + ", "@ + state_variable_text(s.last())
    }
}

/// The sentence that describes a traversal: its edge, its total cost and the state
/// it leaves, as a bracketed list.
pub open spec fn traversal_text(et: EdgeTraversalView) -> Seq<char> {
    "edge "@ + decimal(et.edge_id.0 as nat) + " cost:"@ + signed_decimal(et.cost.total_cost.0 as int)
        + " state:["@ + state_items_text(et.result_state) + "]"@
}

/// Whether the traversal model of the edge list of `next` may leave the state `after`
/// when it traverses that graph edge, between its end vertices, from the state `before`
/// with the search tree `tree`.
pub open spec fn traversed_from<T: TraversalModel, C: ConstraintModel, L: LabelModel>(
    si: SearchInstance<T, C, L>,
    next: (EdgeListId, EdgeId),
    tree: SearchTreeView,
    before: Seq<StateVariable>,
    after: Seq<StateVariable>,
) -> bool {
    &&& si.graph.edge_at(next.0, next.1) matches Some(e)
    &&& next.0.0 < si.traversal_models@.len()
    &&& exists|t: (Vertex, Edge, Vertex)| {
        &&& t.1 == e
        &&& si.graph.wf() ==> t.0 == si.graph.vertices@[e.src_vertex_id.0 as int] && t.2 == si.graph.vertices@[e.dst_vertex_id.0 as int]
        &&& #[trigger] si.traversal_models@[next.0.0 as int].traversal_answer(t, before, after, tree, si.state_model, true)
    }
}

impl EdgeTraversal {
    /// A sentence that describes this traversal: its edge, its total cost and the
    /// state it leaves.
    pub fn description(&self) -> (s: String)
        ensures
            s@ == traversal_text(self@),
    {
        let id = u64_decimal(self.edge_id.0 as u64);
        let cost = i64_decimal(self.cost.total_cost.0);
        let mut s = appended(appended("edge ".to_owned(), id.as_str()), " cost:");
        s = appended(appended(s, cost.as_str()), " state:[");
        let ghost head = s@;
        let mut i: usize = 0;
        while i < self.result_state.len()
            invariant
                i <= self.result_state.len(),
                s@ == head + state_items_text(self.result_state@.take(i as int)),
            decreases self.result_state.len() - i,
        {
            let v = self.result_state[i].0;
            let text = i64_decimal(v);
            if i > 0 {
                s = appended(s, ", ");
            }
            s = appended(appended(appended(s, "StateVariable("), text.as_str()), ")");
            proof {
                let t = self.result_state@.take(i + 1);
                assert(t.drop_last() =~= self.result_state@.take(i as int));
                assert(t.last() == self.result_state@[i as int]);
                if i == 0 {
                    assert(self.result_state@.take(0) =~= Seq::<StateVariable>::empty());
                }
            }
            i = i + 1;
        }
        proof {
            assert(self.result_state@.take(i as int) =~= self.result_state@);
        }
        appended(s, "]")
    }

    /// Traverses the middle edge of `trajectory` from `prev_state`: copies the state,
    /// lets the traversal model update it, and prices the result with the cost model.
    pub fn new_local<T: TraversalModel>(
        trajectory: (&Vertex, &Edge, &Vertex),
        tree: &SearchTree,
        prev_state: &Vec<StateVariable>,
        state_model: &StateModel,
        traversal_model: &T,
        cost_model: &CostModel,
    ) -> (r: Result<EdgeTraversal, SearchError>)
        ensures
            prev_state@.len() != state_model.initial_values@.len() ==> r == Err::<EdgeTraversal, SearchError>(
                SearchError::StateFailure { source: StateModelError::UnexpectedStateLength(
                    state_model.initial_values@.len() as usize, prev_state@.len() as usize) }),
            r matches Ok(et) ==> traversal_outcome(et, *trajectory.1, *cost_model),
            r matches Ok(et) ==> traversal_model.traversal_answer((*trajectory.0, *trajectory.1, *trajectory.2), prev_state@,
                et.result_state@, tree@, *state_model, true),
            r matches Err(e) ==> (e matches SearchError::StateFailure { .. } || e matches SearchError::TraversalModelFailure { .. }
                || e matches SearchError::CostFailure { .. }),
    {
        let (_, edge, _) = trajectory;
        let init = state_model.initial_state(Some(prev_state));
        let mut result_state = match init {
            Ok(s) => s,
            Err(e) => return Err(SearchError::StateFailure { source: e }),
        };
        proof {
            assert(prev_state@.len() == state_model.initial_values@.len());
            assert(result_state@ =~= prev_state@);
        }
        let ghost before = result_state@;
        let r0 = traversal_model.traverse_edge(trajectory, &mut result_state, tree, state_model);
        if let Err(e) = r0 {
            return Err(SearchError::TraversalModelFailure { source: e });
        }
        proof {
            assert(before == prev_state@);
        }
        let cost = match cost_model.traversal_cost(trajectory, &result_state, tree, state_model) {
            Ok(c) => c,
            Err(e) => return Err(SearchError::CostFailure { source: e }),
        };
        Ok(EdgeTraversal { edge_list_id: edge.edge_list_id, edge_id: edge.edge_id, cost, result_state })
    }

    /// Traverses the graph edge `next_edge` from `prev_state`, with the traversal model of its edge list.
    pub fn new<T: TraversalModel, C: ConstraintModel, L: LabelModel>(
        next_edge: (EdgeListId, EdgeId),
        tree: &SearchTree,
        prev_state: &Vec<StateVariable>,
        si: &SearchInstance<T, C, L>,
    ) -> (r: Result<EdgeTraversal, SearchError>)
        ensures
            si.graph.edge_at(next_edge.0, next_edge.1) is None ==> r == Err::<EdgeTraversal, SearchError>(
                SearchError::NetworkFailure { source: si.graph.edge_error(next_edge.0, next_edge.1) }),
            si.graph.wf() && si.graph.edge_at(next_edge.0, next_edge.1) is Some && next_edge.0.0 >= si.traversal_models@.len()
                ==> r matches Err(SearchError::InternalError(_)),
            r matches Ok(et) ==> si.graph.edge_at(next_edge.0, next_edge.1) matches Some(e)
                && traversal_outcome(et, e, si.cost_model),
            r matches Ok(et) ==> traversed_from(*si, next_edge, tree@, prev_state@, et.result_state@),
            si.graph.wf() && si.graph.edge_at(next_edge.0, next_edge.1) is Some && next_edge.0.0 < si.traversal_models@.len()
                ==> (r is Ok || r matches Err(SearchError::StateFailure { .. }) || r matches Err(SearchError::TraversalModelFailure { .. })
                    || r matches Err(SearchError::CostFailure { .. })),
            r matches Err(e) ==> (e is NetworkFailure || e is InternalError || e is StateFailure
                || e is TraversalModelFailure || e is CostFailure),
    {
        let (edge_list_id, edge_id) = next_edge;
        let trajectory = match si.graph.edge_triplet(&edge_list_id, &edge_id) {
            Ok(t) => t,
            Err(e) => return Err(SearchError::NetworkFailure { source: e }),
        };
        let tm = match si.get_traversal_model(&edge_list_id) {
            Ok(tm) => tm,
            Err(e) => return Err(e),
        };
        Self::new_local(trajectory, tree, prev_state, &si.state_model, tm, &si.cost_model)
    }
}

} // verus!
