use vstd::prelude::*;
use crate::model::constraint::ConstraintModel;
use crate::model::cost_model::CostModel;
use crate::network::Graph;
use crate::model::label_model::LabelModel;
use crate::model::traversal::TraversalModel;
use crate::search::a_star::a_star_ops::{first_missing_edge, route_sources};
use crate::search::direction::Direction;
use crate::search::edge_traversal::{traversal_outcome, traversed_from, EdgeTraversal};
use crate::cost::StateVariable;
use crate::search::search_error::SearchError;
use crate::search::search_instance::SearchInstance;
use crate::search::search_tree::{empty_tree, SearchTree};

verus! {

/// Whether `route` traverses the edges of `rev_route` backwards, edge for edge (for a
/// well-formed graph, an edge's own ids are those it is stored under), with each
/// traversal priced by the cost model.
pub open spec fn reoriented_from<T: TraversalModel, C: ConstraintModel, L: LabelModel>(
    route: Seq<EdgeTraversal>,
    rev_route: Seq<EdgeTraversal>,
    si: SearchInstance<T, C, L>,
) -> bool {
    &&& route.len() == rev_route.len()
    &&& forall|k: int| 0 <= k < route.len() ==> traverses(si.graph, si.cost_model, #[trigger] route[k], rev_route[rev_route.len() - 1 - k])
}

/// The state the reoriented route starts from: the final state of the forward route, or
/// the initial state when that route is empty.
pub open spec fn reoriented_start<T: TraversalModel, C: ConstraintModel, L: LabelModel>(
    fwd_route: Seq<EdgeTraversal>,
    si: SearchInstance<T, C, L>,
) -> Seq<StateVariable> {
    if fwd_route.len() == 0 { si.state_model.initial_values@ } else { fwd_route.last().result_state@ }
}

/// Whether each traversal of `route` is one that the traversal model may give for the
/// edge stored under the ids of the matching traversal of `rev_route`, taken backwards,
/// from the state the traversal before it ended in (from `start` for the first).
pub open spec fn chained_from<T: TraversalModel, C: ConstraintModel, L: LabelModel>(
    route: Seq<EdgeTraversal>,
    rev_route: Seq<EdgeTraversal>,
    start: Seq<StateVariable>,
    si: SearchInstance<T, C, L>,
) -> bool {
    forall|k: int| 0 <= k < route.len() ==> traversed_from(si,
        (rev_route[rev_route.len() - 1 - k].edge_list_id, rev_route[rev_route.len() - 1 - k].edge_id),
        empty_tree(Direction::Forward), if k == 0 { start } else { route[k - 1].result_state@ }, #[trigger] route[k].result_state@)
}

/// Whether `et` is a traversal, priced by cost model `cm`, of the graph edge stored under the ids of `re`.
pub open spec fn traverses(g: Graph, cm: CostModel, et: EdgeTraversal, re: EdgeTraversal) -> bool {
    g.edge_at(re.edge_list_id, re.edge_id) matches Some(e) && traversal_outcome(et, e, cm)
}

/// Turns the reverse half of a bidirectional search into the forward continuation of
/// the forward half: the reverse route's edges are traversed again in forward order,
/// starting from the final state of the forward route (or the initial state when it is
/// empty), each from the state the previous one ended in.
pub fn reorient_reverse_route<T: TraversalModel, C: ConstraintModel, L: LabelModel>(
    fwd_route: &Vec<EdgeTraversal>,
    rev_route: &Vec<EdgeTraversal>,
    si: &SearchInstance<T, C, L>,
) -> (r: Result<Vec<EdgeTraversal>, SearchError>)
    ensures
        r matches Ok(route) ==> reoriented_from(route@, rev_route@, *si),
        r matches Ok(route) ==> chained_from(route@, rev_route@, reoriented_start(fwd_route@, *si), *si),
        si.graph.wf() && (forall|i: int| 0 <= i < rev_route@.len() ==> si.graph.edge_at((#[trigger] rev_route@[i]).edge_list_id, rev_route@[i].edge_id) is Some
            && rev_route@[i].edge_list_id.0 < si.traversal_models@.len())
            ==> (r is Ok || r matches Err(SearchError::StateFailure { .. }) || r matches Err(SearchError::TraversalModelFailure { .. })
                || r matches Err(SearchError::CostFailure { .. })),
        r matches Err(e) ==> (e is NetworkFailure || e is InternalError || e is StateFailure
            || e is TraversalModelFailure || e is CostFailure),
{
    let mut acc_state = if fwd_route.len() == 0 {
        match si.state_model.initial_state(None) {
            Ok(s) => s,
            Err(e) => return Err(SearchError::StateFailure { source: e }),
        }
    } else {
        fwd_route[fwd_route.len() - 1].result_state.clone()
    };
    let tree = SearchTree::new(Direction::Forward);
    let mut result: Vec<EdgeTraversal> = Vec::new();
    let n = rev_route.len();
    let mut i: usize = n;
    while i > 0
        invariant
            n == rev_route@.len(),
            0 <= i <= n,
            result@.len() == n - i,
            forall|k: int| 0 <= k < result@.len() ==> traverses(si.graph, si.cost_model, #[trigger] result@[k], rev_route@[n - 1 - k]),
            tree@ == empty_tree(Direction::Forward),
            chained_from(result@, rev_route@, reoriented_start(fwd_route@, *si), *si),
            acc_state@ == (if result@.len() == 0 { reoriented_start(fwd_route@, *si) } else { result@.last().result_state@ }),
        decreases i,
    {
        i = i - 1;
        let re = &rev_route[i];
        let et = match EdgeTraversal::new((re.edge_list_id, re.edge_id), &tree, &acc_state, si) {
            Ok(et) => et,
            Err(e) => return Err(e),
        };
        let ghost prev_state = acc_state@;
        acc_state = et.result_state.clone();
        let ghost old_result = result@;
        result.push(et);
        proof {
            assert(acc_state@ =~= result@.last().result_state@);
            assert forall|k: int| 0 <= k < result@.len() implies traversed_from(*si,
                (rev_route@[n - 1 - k].edge_list_id, rev_route@[n - 1 - k].edge_id),
                empty_tree(Direction::Forward), if k == 0 { reoriented_start(fwd_route@, *si) } else { result@[k - 1].result_state@ },
                #[trigger] result@[k].result_state@) by {
                if k < old_result.len() {
                    assert(result@[k] == old_result[k]);
                    if k > 0 {
                        assert(result@[k - 1] == old_result[k - 1]);
                    }
                } else {
                    if k > 0 {
                        assert(result@[k - 1] == old_result[k - 1]);
                    }
                }
            }
            assert forall|k: int| 0 <= k < result@.len() implies traverses(si.graph, si.cost_model, #[trigger] result@[k], rev_route@[n - 1 - k]) by {
                if k < old_result.len() {
                    assert(result@[k] == old_result[k]);
                } else {
                    assert(n - 1 - k == i);
                }
            }
        }
    }
    Ok(result)
}

/// Whether a route has a loop: two of its edges leaving the same vertex. An error when
/// the graph lacks one of its edges.
pub fn route_contains_loop<T: TraversalModel, C: ConstraintModel, L: LabelModel>(
    route: &Vec<EdgeTraversal>,
    si: &SearchInstance<T, C, L>,
) -> (r: Result<bool, SearchError>)
    ensures
        match first_missing_edge(si.graph, route@) {
            Some(i) => r == Err::<bool, SearchError>(SearchError::NetworkFailure {
                source: si.graph.edge_error(route@[i].edge_list_id, route@[i].edge_id) }),
            None => r == Ok::<bool, SearchError>(!route_sources(si.graph, route@).no_duplicates()),
        },
{
    crate::search::a_star::a_star_ops::route_contains_loop(route, si)
}

} // verus!
