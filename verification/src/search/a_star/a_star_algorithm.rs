use vstd::prelude::*;
use crate::cost::{Cost, StateVariable, TraversalCost};
use crate::label::Label;
use crate::model::constraint::{edge_of, ConstraintModel, ConstraintModelError};
use crate::model::cost_model::{cost_defined, lemma_prefix_update, state_cost, CostModel};
use crate::model::label_model::{LabelModel, LabelModelError, VertexLabelModel};
use crate::model::traversal::{added_at, chebyshev, DistanceTraversalModel, TraversalModel};
use crate::network::{AdjacencyEntry, Edge, EdgeId, EdgeListId, Graph, NetworkError, Vertex, VertexId};
use crate::model::state::StateModel;
use crate::priority_queue::InternalPriorityQueue;
use crate::search::a_star::frontier_instance::{frontier_for, is_cheapest, FrontierInstance};
use crate::search::direction::{entry_edges, Direction};
use crate::search::edge_traversal::{traversed_from, EdgeTraversal, EdgeTraversalView};
use crate::search::search_error::SearchError;
use crate::search::search_instance::SearchInstance;
use crate::search::search_result::SearchResult;
use crate::model::termination::stops;
use crate::search::search_tree::{
    empty_tree, has_vertex, inserted, insert_succeeds, rooted_at, SearchTree, SearchTreeView,
};
use crate::search::search_tree_laws::{law_empty_tree_wf, law_insert_keeps_wf, tree_wf};
use crate::search::search_tree_node::SearchTreeNodeView;

verus! {

/// Every branch of the tree was reached through a graph edge followed in the tree's
/// orientation, from its parent's vertex to its own vertex.
pub open spec fn follows_graph(t: SearchTreeView, g: Graph) -> bool {
    forall|l: Label| #[trigger] t.nodes.contains_key(l) ==> match t.nodes[l] {
        SearchTreeNodeView::Root { .. } => true,
        SearchTreeNodeView::Branch { incoming_edge, parent, .. } =>
            g.edge_at(incoming_edge.edge_list_id, incoming_edge.edge_id) matches Some(e)
            && t.direction.key_vertex(e) == l.vertex()
            && t.direction.start_vertex(e) == parent.vertex(),
    }
}

/// What a search from `source` in orientation `direction` builds: a well-formed tree of
/// that orientation; over a well-formed graph, its branches follow graph edges and
/// its root is a label of `source`.
pub open spec fn search_tree_valid(t: SearchTreeView, g: Graph, direction: Direction, source: VertexId) -> bool {
    &&& tree_wf(t)
    &&& t.direction == direction
    &&& (g.wf() ==> follows_graph(t, g))
    &&& (g.wf() ==> (t.root matches Some(r) ==> r.vertex() == source))
    &&& (g.wf() ==> roots_at(t, source))
}

/// Every root node of the tree is a label of `source`.
pub open spec fn roots_at(t: SearchTreeView, source: VertexId) -> bool {
    forall|l: Label| #[trigger] t.nodes.contains_key(l) && t.nodes[l] is Root ==> l.vertex() == source
}

/// Every branch of the tree was priced by the cost model: the objective and total
/// cost of its traversal are the weighted sum of the state the traversal reached.
pub open spec fn priced_by(t: SearchTreeView, cm: CostModel) -> bool {
    forall|l: Label| #[trigger] t.nodes.contains_key(l) ==> match t.nodes[l] {
        SearchTreeNodeView::Root { .. } => true,
        SearchTreeNodeView::Branch { incoming_edge, .. } =>
            cost_defined(cm.weights@, incoming_edge.result_state)
            && incoming_edge.cost.objective_cost.0 == state_cost(cm.weights@, incoming_edge.result_state)
            && incoming_edge.cost.total_cost == incoming_edge.cost.objective_cost,
    }
}

/// Every branch of the tree was reached through a graph edge that the constraint model
/// of its edge list does not forbid.
pub open spec fn allowed_by<C: ConstraintModel>(t: SearchTreeView, g: Graph, models: Seq<C>) -> bool {
    forall|l: Label| #[trigger] t.nodes.contains_key(l) ==> match t.nodes[l] {
        SearchTreeNodeView::Root { .. } => true,
        SearchTreeNodeView::Branch { incoming_edge, .. } =>
            g.edge_at(incoming_edge.edge_list_id, incoming_edge.edge_id) matches Some(e)
            && incoming_edge.edge_list_id.0 < models.len()
            && !models[incoming_edge.edge_list_id.0 as int].forbids(e),
    }
}

/// What a vertex-oriented search from `source` toward `target` gives: an empty result
/// at once when the target is the source; otherwise, on success, a valid tree that
/// holds a label of the target unless the search was stopped early, whose branches
/// were priced by the cost model and use no edge that a constraint model forbids; and a
/// missing-path error only between the source and the target.
pub open spec fn vertex_search_result<C: ConstraintModel>(
    r: Result<SearchResult, SearchError>,
    source: VertexId,
    target: Option<VertexId>,
    direction: Direction,
    g: Graph,
    cm: CostModel,
    models: Seq<C>,
) -> bool {
    &&& target == Some(source) ==> (r matches Ok(res) && res.tree@ == empty_tree(Direction::Forward)
        && res.iterations == 0 && res.terminated is None)
    &&& target != Some(source) ==> (r matches Ok(res) ==> search_tree_valid(res.tree@, g, direction, source)
        && priced_by(res.tree@, cm)
        && (g.wf() ==> allowed_by(res.tree@, g, models))
        && (res.terminated is None ==> (target matches Some(t) ==> has_vertex(res.tree@, t))))
    &&& r matches Err(SearchError::NoPathExistsBetweenVertices(s, t, _)) ==> s == source && target == Some(t)
}

/// The state a search keeps between steps: a valid tree priced by the cost model and
/// using no forbidden edge, and
/// a frontier whose labels are in the tree, apart from the label the search started from.
pub open spec fn search_state_ok<C: ConstraintModel>(
    t: SearchTreeView,
    frontier: Map<Label, Cost>,
    g: Graph,
    cm: CostModel,
    models: Seq<C>,
    direction: Direction,
    source: VertexId,
    initial_label: Label,
) -> bool {
    &&& search_tree_valid(t, g, direction, source)
    &&& priced_by(t, cm)
    &&& (g.wf() ==> allowed_by(t, g, models))
    &&& initial_label.vertex() == source
    &&& forall|k: Label| #[trigger] frontier.contains_key(k) ==> t.nodes.contains_key(k) || k == initial_label
}

/// The sum of two costs, clamped to the range of a cost value.
pub open spec fn clamped_sum(a: Cost, b: Cost) -> int {
    let s = a.0 + b.0;
    if s > i64::MAX { i64::MAX as int } else if s < i64::MIN { i64::MIN as int } else { s }
}

/// The sum of two costs, clamped to the range of a cost value.
pub fn add_costs(a: Cost, b: Cost) -> (c: Cost)
    ensures
        c.0 == clamped_sum(a, b),
{
    let s: i128 = a.0 as i128 + b.0 as i128;
    if s > i64::MAX as i128 {
        Cost(i64::MAX)
    } else if s < i64::MIN as i128 {
        Cost(i64::MIN)
    } else {
        Cost(s as i64)
    }
}

proof fn lemma_follows_after_insert(t: SearchTreeView, g: Graph, p: Label, etv: crate::search::edge_traversal::EdgeTraversalView, c: Label, e: Edge)
    requires
        tree_wf(t),
        insert_succeeds(t, p),
        follows_graph(t, g),
        g.edge_at(etv.edge_list_id, etv.edge_id) == Some(e),
        t.direction.key_vertex(e) == c.vertex(),
        t.direction.start_vertex(e) == p.vertex(),
    ensures
        follows_graph(inserted(t, p, etv, c), g),
{
    let n = inserted(t, p, etv, c);
    let base = if t.nodes.contains_key(p) { t } else { rooted_at(t, p) };
    assert forall|l: Label| #[trigger] n.nodes.contains_key(l) implies match n.nodes[l] {
        SearchTreeNodeView::Root { .. } => true,
        SearchTreeNodeView::Branch { incoming_edge, parent, .. } =>
            g.edge_at(incoming_edge.edge_list_id, incoming_edge.edge_id) matches Some(e2)
            && n.direction.key_vertex(e2) == l.vertex()
            && n.direction.start_vertex(e2) == parent.vertex(),
    } by {
        if l == c {
        } else if l == p {
            if t.nodes.contains_key(p) {
                assert(t.nodes.contains_key(l));
            }
            match base.nodes[p] {
                SearchTreeNodeView::Root { .. } => {},
                SearchTreeNodeView::Branch { .. } => {},
            }
        } else {
            assert(t.nodes.contains_key(l));
        }
    }
}

proof fn lemma_roots_after_insert(t: SearchTreeView, p: Label, etv: crate::search::edge_traversal::EdgeTraversalView, c: Label, source: VertexId)
    requires
        tree_wf(t),
        insert_succeeds(t, p),
        roots_at(t, source),
        !t.nodes.contains_key(p) ==> p.vertex() == source,
    ensures
        roots_at(inserted(t, p, etv, c), source),
{
    let n = inserted(t, p, etv, c);
    let base = if t.nodes.contains_key(p) { t } else { rooted_at(t, p) };
    assert forall|l: Label| #[trigger] n.nodes.contains_key(l) && n.nodes[l] is Root implies l.vertex() == source by {
        if l == c {
        } else if l == p {
            if t.nodes.contains_key(p) {
                match t.nodes[p] {
                    SearchTreeNodeView::Root { .. } => {},
                    SearchTreeNodeView::Branch { .. } => {},
                }
            }
        } else {
            assert(t.nodes.contains_key(l));
        }
    }
}

proof fn lemma_priced_after_insert(t: SearchTreeView, cm: CostModel, p: Label, etv: crate::search::edge_traversal::EdgeTraversalView, c: Label)
    requires
        tree_wf(t),
        insert_succeeds(t, p),
        priced_by(t, cm),
        cost_defined(cm.weights@, etv.result_state),
        etv.cost.objective_cost.0 == state_cost(cm.weights@, etv.result_state),
        etv.cost.total_cost == etv.cost.objective_cost,
    ensures
        priced_by(inserted(t, p, etv, c), cm),
{
    let n = inserted(t, p, etv, c);
    let base = if t.nodes.contains_key(p) { t } else { rooted_at(t, p) };
    assert forall|l: Label| #[trigger] n.nodes.contains_key(l) implies match n.nodes[l] {
        SearchTreeNodeView::Root { .. } => true,
        SearchTreeNodeView::Branch { incoming_edge, .. } =>
            cost_defined(cm.weights@, incoming_edge.result_state)
            && incoming_edge.cost.objective_cost.0 == state_cost(cm.weights@, incoming_edge.result_state)
            && incoming_edge.cost.total_cost == incoming_edge.cost.objective_cost,
    } by {
        if l == c {
        } else if l == p {
            if t.nodes.contains_key(p) {
                assert(t.nodes.contains_key(l));
            }
            match base.nodes[p] {
                SearchTreeNodeView::Root { .. } => {},
                SearchTreeNodeView::Branch { .. } => {},
            }
        } else {
            assert(t.nodes.contains_key(l));
        }
    }
}

proof fn lemma_allowed_after_insert<C: ConstraintModel>(
    t: SearchTreeView,
    g: Graph,
    models: Seq<C>,
    p: Label,
    etv: crate::search::edge_traversal::EdgeTraversalView,
    c: Label,
    e: Edge,
)
    requires
        tree_wf(t),
        insert_succeeds(t, p),
        allowed_by(t, g, models),
        g.edge_at(etv.edge_list_id, etv.edge_id) == Some(e),
        etv.edge_list_id.0 < models.len(),
        !models[etv.edge_list_id.0 as int].forbids(e),
    ensures
        allowed_by(inserted(t, p, etv, c), g, models),
{
    let n = inserted(t, p, etv, c);
    let base = if t.nodes.contains_key(p) { t } else { rooted_at(t, p) };
    assert forall|l: Label| #[trigger] n.nodes.contains_key(l) implies match n.nodes[l] {
        SearchTreeNodeView::Root { .. } => true,
        SearchTreeNodeView::Branch { incoming_edge, .. } =>
            g.edge_at(incoming_edge.edge_list_id, incoming_edge.edge_id) matches Some(e2)
            && incoming_edge.edge_list_id.0 < models.len()
            && !models[incoming_edge.edge_list_id.0 as int].forbids(e2),
    } by {
        if l == c {
        } else if l == p {
            if t.nodes.contains_key(p) {
                assert(t.nodes.contains_key(l));
            }
            match base.nodes[p] {
                SearchTreeNodeView::Root { .. } => {},
                SearchTreeNodeView::Branch { .. } => {},
            }
        } else {
            assert(t.nodes.contains_key(l));
        }
    }
}

/// Approximates the state change between two vertices with the estimation traversal
/// model, starting from `state`, and prices the estimated state with the cost model.
pub fn estimate_traversal_cost<T: TraversalModel, C: ConstraintModel, L: LabelModel>(
    src: VertexId,
    dst: VertexId,
    state: &Vec<StateVariable>,
    tree: &SearchTree,
    si: &SearchInstance<T, C, L>,
) -> (r: Result<TraversalCost, SearchError>)
    requires
        si.estimation_index() < si.traversal_models@.len(),
    ensures
        src.0 >= si.graph.vertices@.len() ==> r == Err::<TraversalCost, SearchError>(
            SearchError::NetworkFailure { source: NetworkError::VertexNotFound(src) }),
        src.0 < si.graph.vertices@.len() && dst.0 >= si.graph.vertices@.len() ==> r == Err::<TraversalCost, SearchError>(
            SearchError::NetworkFailure { source: NetworkError::VertexNotFound(dst) }),
        r matches Ok(tc) ==> exists|s: Seq<StateVariable>| #[trigger] cost_defined(si.cost_model.weights@, s)
            && tc.objective_cost.0 == state_cost(si.cost_model.weights@, s) && tc.total_cost == tc.objective_cost
            && si.traversal_models@[si.estimation_index()].estimate_answer(
                (si.graph.vertices@[src.0 as int], si.graph.vertices@[dst.0 as int]), state@, s, tree@, si.state_model, true),
        r matches Err(e) ==> (e is NetworkFailure || e is TraversalModelFailure || e is CostFailure),
{
    let src_v = match si.graph.get_vertex(&src) {
        Ok(v) => v,
        Err(e) => return Err(SearchError::NetworkFailure { source: e }),
    };
    let dst_v = match si.graph.get_vertex(&dst) {
        Ok(v) => v,
        Err(e) => return Err(SearchError::NetworkFailure { source: e }),
    };
    let mut dst_state = state.clone();
    proof { assert(dst_state@ =~= state@); }
    let estimated = si.get_traversal_estimation_model().estimate_traversal((src_v, dst_v), &mut dst_state, tree, &si.state_model);
    if let Err(e) = estimated {
        return Err(SearchError::TraversalModelFailure { source: e });
    }
    match si.cost_model.estimate_cost(&dst_state, &si.state_model) {
        Ok(c) => {
            proof {
                assert(cost_defined(si.cost_model.weights@, dst_state@));
                assert(si.traversal_models@[si.estimation_index()].estimate_answer(
                    (si.graph.vertices@[src.0 as int], si.graph.vertices@[dst.0 as int]), state@, dst_state@, tree@, si.state_model, true));
            }
            Ok(c)
        },
        Err(e) => Err(SearchError::CostFailure { source: e }),
    }
}

/// Whether the constraint model `m` lets a search follow `edge` whatever it is asked with.
pub open spec fn must_accept<C: ConstraintModel>(m: C, edge: Edge) -> bool {
    forall|prev: Option<Edge>, st: Seq<StateVariable>, sm: StateModel, r: Result<bool, ConstraintModelError>|
        #[trigger] m.frontier_answer(edge, prev, st, sm, r) ==> r == Ok::<bool, ConstraintModelError>(true)
}

/// Whether a search in orientation `direction` can always step from `u` to `w`: some entry
/// incident to `u` is a graph edge leading to `w` that its constraint model must accept.
pub open spec fn open_step<C: ConstraintModel>(g: Graph, models: Seq<C>, direction: Direction, u: VertexId, w: VertexId) -> bool {
    exists|j: int| 0 <= j < direction.incident_entries(g, u).len()
        && #[trigger] open_entry(g, models, direction, entry_ids(direction.incident_entries(g, u)[j]), w)
}

/// The edge ids of an adjacency entry.
pub open spec fn entry_ids(en: AdjacencyEntry) -> (EdgeListId, EdgeId) {
    (en.0, en.1)
}

/// Whether the edge stored under `en` leads to `w` in orientation `direction` and its
/// constraint model must accept it.
pub open spec fn open_entry<C: ConstraintModel>(g: Graph, models: Seq<C>, direction: Direction, en: (EdgeListId, EdgeId), w: VertexId) -> bool {
    &&& g.edge_at(en.0, en.1) is Some
    &&& en.0.0 < models.len()
    &&& must_accept(models[en.0.0 as int], g.edge_at(en.0, en.1)->0)
    &&& direction.key_vertex(g.edge_at(en.0, en.1)->0) == w
}

/// Whether a search in orientation `direction` from `from` can always reach `to`: a chain
/// of steps that the constraint models must accept leads there.
pub open spec fn reaches_open<C: ConstraintModel>(g: Graph, models: Seq<C>, direction: Direction, from: VertexId, to: VertexId) -> bool {
    exists|p: Seq<VertexId>| #[trigger] open_chain(g, models, direction, p) && p[0] == from && p.last() == to
}

/// Whether `p` is a non-empty chain of steps that the constraint models must accept.
pub open spec fn open_chain<C: ConstraintModel>(g: Graph, models: Seq<C>, direction: Direction, p: Seq<VertexId>) -> bool {
    &&& p.len() >= 1
    &&& forall|i: int| 0 <= i < p.len() - 1 ==> #[trigger] open_step(g, models, direction, p[i], p[i + 1])
}

/// Whether the edge stored under `ids` is settled in `costs`: when it leads to a vertex
/// and its constraint model must accept it, some label of that vertex has a known cost.
pub open spec fn edge_settled<C: ConstraintModel>(g: Graph, models: Seq<C>, direction: Direction, ids: (EdgeListId, EdgeId), costs: Map<Label, Cost>) -> bool {
    forall|w: VertexId| #[trigger] open_entry(g, models, direction, ids, w)
        ==> exists|k: Label| #[trigger] costs.contains_key(k) && k.vertex() == w
}

/// Whether entry `j` incident to `v` is settled in `costs`.
pub open spec fn entry_settled<C: ConstraintModel>(g: Graph, models: Seq<C>, direction: Direction, v: VertexId, j: int, costs: Map<Label, Cost>) -> bool {
    edge_settled(g, models, direction, entry_ids(direction.incident_entries(g, v)[j]), costs)
}

/// Whether the search has finished with label `l`: it is not a label of the target, and
/// every entry incident to its vertex is settled in `costs`.
pub open spec fn label_closed<C: ConstraintModel>(g: Graph, models: Seq<C>, direction: Direction, target: Option<VertexId>, l: Label, costs: Map<Label, Cost>) -> bool {
    &&& target != Some(l.vertex())
    &&& forall|j: int| 0 <= j < direction.incident_entries(g, l.vertex()).len() ==> #[trigger] entry_settled(g, models, direction, l.vertex(), j, costs)
}

/// A finished label stays finished when more labels get known costs.
proof fn lemma_closed_grows<C: ConstraintModel>(g: Graph, models: Seq<C>, direction: Direction, target: Option<VertexId>, l: Label, c0: Map<Label, Cost>, c1: Map<Label, Cost>)
    requires
        label_closed(g, models, direction, target, l, c0),
        forall|k: Label| #[trigger] c0.contains_key(k) ==> c1.contains_key(k),
    ensures
        label_closed(g, models, direction, target, l, c1),
{
    assert forall|j: int| 0 <= j < direction.incident_entries(g, l.vertex()).len() implies #[trigger] entry_settled(g, models, direction, l.vertex(), j, c1) by {
        assert(entry_settled(g, models, direction, l.vertex(), j, c0));
        assert forall|w: VertexId| #[trigger] open_entry(g, models, direction, entry_ids(direction.incident_entries(g, l.vertex())[j]), w)
            implies exists|k: Label| #[trigger] c1.contains_key(k) && k.vertex() == w by {
            let k = choose|k: Label| #[trigger] c0.contains_key(k) && k.vertex() == w;
            assert(c1.contains_key(k));
        }
    }
}

/// When every label with a known cost is finished and some label of the first vertex of
/// a chain has a known cost, so has some label of each vertex of the chain.
proof fn lemma_chain_settled<C: ConstraintModel>(g: Graph, models: Seq<C>, direction: Direction, target: Option<VertexId>,
    costs: Map<Label, Cost>, p: Seq<VertexId>, i: int)
    requires
        open_chain(g, models, direction, p),
        forall|k: Label| #[trigger] costs.contains_key(k) ==> label_closed(g, models, direction, target, k, costs),
        exists|k: Label| #[trigger] costs.contains_key(k) && k.vertex() == p[0],
        0 <= i < p.len(),
    ensures
        exists|k: Label| #[trigger] costs.contains_key(k) && k.vertex() == p[i],
    decreases i,
{
    if i > 0 {
        lemma_chain_settled(g, models, direction, target, costs, p, i - 1);
        let k = choose|k: Label| #[trigger] costs.contains_key(k) && k.vertex() == p[i - 1];
        assert(open_step(g, models, direction, p[i - 1], p[(i - 1) + 1]));
        let j = choose|j: int| 0 <= j < direction.incident_entries(g, p[i - 1]).len()
            && #[trigger] open_entry(g, models, direction, entry_ids(direction.incident_entries(g, p[i - 1])[j]), p[i]);
        assert(label_closed(g, models, direction, target, k, costs));
        assert(entry_settled(g, models, direction, k.vertex(), j, costs));
    }
}

/// A settled entry stays settled when more labels get known costs.
proof fn lemma_settled_grows<C: ConstraintModel>(g: Graph, models: Seq<C>, direction: Direction, ids: (EdgeListId, EdgeId), c0: Map<Label, Cost>, c1: Map<Label, Cost>)
    requires
        edge_settled(g, models, direction, ids, c0),
        forall|k: Label| #[trigger] c0.contains_key(k) ==> c1.contains_key(k),
    ensures
        edge_settled(g, models, direction, ids, c1),
{
    assert forall|w: VertexId| #[trigger] open_entry(g, models, direction, ids, w)
        implies exists|k: Label| #[trigger] c1.contains_key(k) && k.vertex() == w by {
        let k = choose|k: Label| #[trigger] c0.contains_key(k) && k.vertex() == w;
        assert(c1.contains_key(k));
    }
}

/// When every label with a known cost is finished, the search started from a label of
/// `source` with a known cost reached a label of every vertex that `source` can always reach.
proof fn lemma_open_reached<C: ConstraintModel>(g: Graph, models: Seq<C>, direction: Direction, target: Option<VertexId>,
    costs: Map<Label, Cost>, initial_label: Label, source: VertexId)
    requires
        costs.contains_key(initial_label),
        initial_label.vertex() == source,
        forall|k: Label| #[trigger] costs.contains_key(k) ==> label_closed(g, models, direction, target, k, costs),
    ensures
        forall|v: VertexId| #[trigger] reaches_open(g, models, direction, source, v)
            ==> exists|k: Label| #[trigger] costs.contains_key(k) && k.vertex() == v,
{
    assert forall|v: VertexId| #[trigger] reaches_open(g, models, direction, source, v)
        implies exists|k: Label| #[trigger] costs.contains_key(k) && k.vertex() == v by {
        let p = choose|p: Seq<VertexId>| #[trigger] open_chain(g, models, direction, p) && p[0] == source && p.last() == v;
        assert(costs.contains_key(initial_label) && initial_label.vertex() == p[0]);
        lemma_chain_settled(g, models, direction, target, costs, p, p.len() - 1);
    }
}

/// The state a search holds at label `l` of tree `t`: the state its incoming edge left,
/// or the initial state `init` when it has none.
pub open spec fn label_state(t: SearchTreeView, l: Label, init: Seq<StateVariable>) -> Seq<StateVariable> {
    if t.nodes.contains_key(l) && t.nodes[l].edge() is Some { t.nodes[l].edge()->0.result_state } else { init }
}

/// The cost the tree records at label `l`: the objective cost of its incoming edge, or
/// zero when it has none.
pub open spec fn recorded_cost(t: SearchTreeView, l: Label) -> int {
    if t.nodes.contains_key(l) && t.nodes[l].edge() is Some { t.nodes[l].edge()->0.cost.objective_cost.0 as int } else { 0 }
}

/// Every label of the tree names its vertex alone.
pub open spec fn vertex_keyed(t: SearchTreeView) -> bool {
    forall|l: Label| #[trigger] t.nodes.contains_key(l) ==> l == Label::Vertex(l.vertex())
}

/// Every label with a known cost has the cost the tree records at it.
pub open spec fn costs_recorded(costs: Map<Label, Cost>, t: SearchTreeView) -> bool {
    forall|k: Label| #[trigger] costs.contains_key(k) ==> costs[k].0 == recorded_cost(t, k)
}

/// Whether the edge stored under `ids` was followed from state `s` in `costs`: when it
/// leads to a vertex and its constraint model must accept it, some traversal of it from
/// `s` left a state in which the label model names a label with a known cost no higher
/// than the cost of that state.
pub open spec fn edge_bounded<T: TraversalModel, C: ConstraintModel, L: LabelModel>(
    si: SearchInstance<T, C, L>, direction: Direction, ids: (EdgeListId, EdgeId), s: Seq<StateVariable>, costs: Map<Label, Cost>,
) -> bool {
    forall|w: VertexId| #[trigger] open_entry(si.graph, si.constraint_models@, direction, ids, w)
        ==> exists|tr: SearchTreeView, st: Seq<StateVariable>, k: Label|
            #![trigger traversed_from(si, ids, tr, s, st), costs.contains_key(k)]
            traversed_from(si, ids, tr, s, st)
            && si.label_model.label_answer(w, st, si.state_model, Ok::<Label, LabelModelError>(k))
            && costs.contains_key(k) && costs[k].0 <= state_cost(si.cost_model.weights@, st)
}

/// Whether entry `j` incident to `v` was followed from state `s` in `costs`.
pub open spec fn entry_bounded<T: TraversalModel, C: ConstraintModel, L: LabelModel>(
    si: SearchInstance<T, C, L>, direction: Direction, v: VertexId, j: int, s: Seq<StateVariable>, costs: Map<Label, Cost>,
) -> bool {
    edge_bounded(si, direction, entry_ids(direction.incident_entries(si.graph, v)[j]), s, costs)
}

/// Whether every entry incident to the vertex of `l` was followed from the state the
/// tree `t` holds at `l`.
pub open spec fn label_bounded<T: TraversalModel, C: ConstraintModel, L: LabelModel>(
    si: SearchInstance<T, C, L>, direction: Direction, t: SearchTreeView, l: Label, init: Seq<StateVariable>, costs: Map<Label, Cost>,
) -> bool {
    forall|j: int| 0 <= j < direction.incident_entries(si.graph, l.vertex()).len()
        ==> #[trigger] entry_bounded(si, direction, l.vertex(), j, label_state(t, l, init), costs)
}

/// Whether every traversal of an edge adds the same cost, `weight` of its ids, to the
/// cost of the state.
pub open spec fn adds_edge_costs<T: TraversalModel, C: ConstraintModel, L: LabelModel>(
    si: SearchInstance<T, C, L>, weight: spec_fn((EdgeListId, EdgeId)) -> int,
) -> bool {
    forall|ids: (EdgeListId, EdgeId), tr: SearchTreeView, b: Seq<StateVariable>, a: Seq<StateVariable>|
        #[trigger] traversed_from(si, ids, tr, b, a)
        ==> state_cost(si.cost_model.weights@, a) == state_cost(si.cost_model.weights@, b) + weight(ids)
}

/// Whether the label model names every vertex by the vertex alone, whatever the state.
pub open spec fn keys_by_vertex<T: TraversalModel, C: ConstraintModel, L: LabelModel>(si: SearchInstance<T, C, L>) -> bool {
    forall|v: VertexId, st: Seq<StateVariable>, r: Result<Label, LabelModelError>|
        #[trigger] si.label_model.label_answer(v, st, si.state_model, r) ==> r == Ok::<Label, LabelModelError>(Label::Vertex(v))
}

/// Whether `w` is a walk from `from` to `to` in orientation `direction`: ids of edges,
/// each an entry incident to the vertex the walk is at, whose constraint model must
/// accept it, leading on to the vertex the next one starts from.
pub open spec fn open_walk<C: ConstraintModel>(g: Graph, models: Seq<C>, direction: Direction, from: VertexId,
    w: Seq<(EdgeListId, EdgeId)>, to: VertexId) -> bool
    decreases w.len(),
{
    if w.len() == 0 {
        from == to
    } else {
        &&& exists|j: int| 0 <= j < direction.incident_entries(g, from).len()
            && #[trigger] entry_ids(direction.incident_entries(g, from)[j]) == w[0]
        &&& g.edge_at(w[0].0, w[0].1) is Some
        &&& open_entry(g, models, direction, w[0], direction.key_vertex(g.edge_at(w[0].0, w[0].1)->0))
        &&& open_walk(g, models, direction, direction.key_vertex(g.edge_at(w[0].0, w[0].1)->0), w.drop_first(), to)
    }
}

/// The sum of `weight` over the edges of `w`.
pub open spec fn walk_weight(weight: spec_fn((EdgeListId, EdgeId)) -> int, w: Seq<(EdgeListId, EdgeId)>) -> int
    decreases w.len(),
{
    if w.len() == 0 { 0 } else { weight(w[0]) + walk_weight(weight, w.drop_first()) }
}

/// Whether tree `t` of a search from `source` holds least costs: when every traversal of
/// an edge adds the same cost, labels name vertices alone and the initial state costs
/// nothing, every vertex that a walk from `source` reaches is the source or has a label
/// in the tree, and the cost the tree records there is no higher than the walk's.
pub open spec fn least_costs<T: TraversalModel, C: ConstraintModel, L: LabelModel>(
    t: SearchTreeView, si: SearchInstance<T, C, L>, direction: Direction, source: VertexId,
) -> bool {
    forall|weight: spec_fn((EdgeListId, EdgeId)) -> int, v: VertexId, w: Seq<(EdgeListId, EdgeId)>|
        #![trigger adds_edge_costs(si, weight), open_walk(si.graph, si.constraint_models@, direction, source, w, v)]
        adds_edge_costs(si, weight) && keys_by_vertex(si)
        && state_cost(si.cost_model.weights@, si.state_model.initial_values@) == 0
        && open_walk(si.graph, si.constraint_models@, direction, source, w, v)
        ==> (v == source || t.nodes.contains_key(Label::Vertex(v)))
            && recorded_cost(t, Label::Vertex(v)) <= walk_weight(weight, w)
}

/// A search whose traversal models all accumulate distance into the same state variable
/// `i` adds a fixed cost per edge: the weight of `i` times the edge's length; and the
/// vertex label model names vertices alone.
pub proof fn law_distance_adds_edge_costs<C: ConstraintModel>(si: SearchInstance<DistanceTraversalModel, C, VertexLabelModel>, i: usize)
    requires
        forall|k: int| 0 <= k < si.traversal_models@.len() ==> #[trigger] si.traversal_models@[k].distance_index == i,
    ensures
        adds_edge_costs(si, |ids: (EdgeListId, EdgeId)| si.cost_model.weights@[i as int] * si.graph.edge_at(ids.0, ids.1)->0.distance),
        keys_by_vertex(si),
{
    let w = si.cost_model.weights@;
    let weight = |ids: (EdgeListId, EdgeId)| w[i as int] * si.graph.edge_at(ids.0, ids.1)->0.distance;
    assert forall|ids: (EdgeListId, EdgeId), tr: SearchTreeView, b: Seq<StateVariable>, a: Seq<StateVariable>|
        #[trigger] traversed_from(si, ids, tr, b, a)
        implies state_cost(w, a) == state_cost(w, b) + weight(ids) by {
        let e = si.graph.edge_at(ids.0, ids.1)->0;
        let t = choose|t: (Vertex, Edge, Vertex)| {
            &&& t.1 == e
            &&& si.graph.wf() ==> t.0 == si.graph.vertices@[e.src_vertex_id.0 as int] && t.2 == si.graph.vertices@[e.dst_vertex_id.0 as int]
            &&& #[trigger] si.traversal_models@[ids.0.0 as int].traversal_answer(t, b, a, tr, si.state_model, true)
        };
        assert(si.traversal_models@[ids.0.0 as int].distance_index == i);
        let x = b[i as int].0 + e.distance;
        assert(added_at(b, i as int, e.distance as int) is Some);
        assert(a == b.update(i as int, StateVariable(x as i64)));
        lemma_prefix_update(w, b, i as int, x as i64, b.len());
        let wi = w[i as int] as int;
        let bi = b[i as int].0 as int;
        let d = e.distance as int;
        assert(wi * (bi + d) - wi * bi == wi * d) by (nonlinear_arith);
    }
}

/// An integer clamped to the range of a cost value.
pub open spec fn clamp(x: int) -> int {
    if x > i64::MAX { i64::MAX as int } else if x < i64::MIN { i64::MIN as int } else { x }
}

/// Whether every estimate toward `target` from a vertex `w` of the graph adds `h(w)`,
/// a non-negative amount, to the cost of the state it starts from.
pub open spec fn estimates_add<T: TraversalModel, C: ConstraintModel, L: LabelModel>(
    si: SearchInstance<T, C, L>, target: VertexId, h: spec_fn(VertexId) -> int,
) -> bool {
    &&& forall|w: VertexId| #[trigger] h(w) >= 0
    &&& forall|w: VertexId, b: Seq<StateVariable>, s: Seq<StateVariable>, tr: SearchTreeView|
        w.0 < si.graph.vertices@.len() && #[trigger] si.traversal_models@[si.estimation_index()].estimate_answer(
            (si.graph.vertices@[w.0 as int], si.graph.vertices@[target.0 as int]), b, s, tr, si.state_model, true)
        ==> state_cost(si.cost_model.weights@, s) == state_cost(si.cost_model.weights@, b) + h(w)
}

/// Whether `h` never overestimates: from every vertex, it is no more than the weight of
/// any walk to `target`.
pub open spec fn admissible<C: ConstraintModel>(g: Graph, models: Seq<C>, direction: Direction, target: VertexId,
    weight: spec_fn((EdgeListId, EdgeId)) -> int, h: spec_fn(VertexId) -> int) -> bool {
    forall|w: VertexId, p: Seq<(EdgeListId, EdgeId)>| #[trigger] open_walk(g, models, direction, w, p, target)
        ==> h(w) <= walk_weight(weight, p)
}

/// Whether tree `t` of an A* search from `source` holds a least cost at `target`: when
/// every traversal of an edge adds the same non-negative cost, every estimate adds an
/// amount that never overestimates, labels name vertices alone and the initial state costs
/// nothing, the tree has a label of `target` whenever a walk from `source` reaches it
/// whose doubled weight fits in a cost value, and the cost the tree records there is no
/// higher than the walk's.
pub open spec fn least_cost_estimated<T: TraversalModel, C: ConstraintModel, L: LabelModel>(
    t: SearchTreeView, si: SearchInstance<T, C, L>, direction: Direction, source: VertexId, target: VertexId,
) -> bool {
    forall|weight: spec_fn((EdgeListId, EdgeId)) -> int, h: spec_fn(VertexId) -> int, w: Seq<(EdgeListId, EdgeId)>|
        #![trigger adds_edge_costs(si, weight), estimates_add(si, target, h), open_walk(si.graph, si.constraint_models@, direction, source, w, target)]
        adds_edge_costs(si, weight) && nonneg_weights(weight) && keys_by_vertex(si)
        && estimates_add(si, target, h) && admissible(si.graph, si.constraint_models@, direction, target, weight, h)
        && state_cost(si.cost_model.weights@, si.state_model.initial_values@) == 0
        && open_walk(si.graph, si.constraint_models@, direction, source, w, target)
        && 2 * walk_weight(weight, w) < i64::MAX
        ==> t.nodes.contains_key(Label::Vertex(target)) && recorded_cost(t, Label::Vertex(target)) <= walk_weight(weight, w)
}

/// Whether each label of the frontier `fr` sits at its A* priority: twice its known
/// cost plus `h` of its vertex, clamped to the range of a cost value.
pub open spec fn at_estimated_priority(fr: Map<Label, Cost>, costs: Map<Label, Cost>, h: spec_fn(VertexId) -> int) -> bool {
    forall|k: Label| #[trigger] fr.contains_key(k) ==> costs.contains_key(k) && fr[k].0 == clamp(2 * costs[k].0 + h(k.vertex()))
}

/// With estimates that add `h`, one step of an A* search keeps every label of the
/// frontier at its A* priority.
proof fn lemma_relax_estimated<T: TraversalModel, C: ConstraintModel, L: LabelModel>(
    si: SearchInstance<T, C, L>, t: VertexId, edge: (EdgeListId, EdgeId), f: FrontierInstance,
    direction: Direction, t0: SearchTreeView, t1: SearchTreeView, c0: Map<Label, Cost>, c1: Map<Label, Cost>,
    fr0: Map<Label, Cost>, fr1: Map<Label, Cost>, h: spec_fn(VertexId) -> int,
)
    requires
        ({
            ||| (t1 == t0 && fr1 == fr0 && c1 == c0)
            ||| relaxed_through(si, true, Some(t), edge, f.prev_state@, direction, si.graph, t0, t1, c0, c1, fr0, fr1)
        }),
        estimates_add(si, t, h),
        at_estimated_priority(fr0, c0, h),
    ensures
        at_estimated_priority(fr1, c1, h),
{
    if !(t1 == t0 && fr1 == fr0 && c1 == c0) {
        let g = si.graph;
        let e = g.edge_at(edge.0, edge.1)->0;
        let (p, et, key) = choose|p: Label, et: EdgeTraversalView, key: Label| {
            &&& #[trigger] inserted(t0, p, et, key) == t1
            &&& et.edge_list_id == e.edge_list_id && et.edge_id == e.edge_id
            &&& key.vertex() == direction.key_vertex(e)
            &&& traversed_from(si, edge, t0, f.prev_state@, et.result_state)
            &&& si.label_model.label_answer(direction.key_vertex(e), et.result_state, si.state_model, Ok::<Label, LabelModelError>(key))
            &&& et.cost.objective_cost.0 == state_cost(si.cost_model.weights@, et.result_state)
            &&& c1 == c0.insert(key, et.cost.objective_cost)
            &&& (c0.contains_key(key) ==> et.cost.objective_cost.0 < c0[key].0)
            &&& fr1.contains_key(key)
            &&& exists|fc: Cost| #[trigger] priority_of(si, true, Some(t), key.vertex(), et.result_state, t1, et.cost.objective_cost, fc)
                && fr1 == (if fr0.contains_key(key) && fr0[key].0 <= fc.0 { fr0 } else { fr0.insert(key, fc) })
        };
        let gc = et.cost.objective_cost;
        let fc = choose|fc: Cost| #[trigger] priority_of(si, true, Some(t), key.vertex(), et.result_state, t1, gc, fc)
            && fr1 == (if fr0.contains_key(key) && fr0[key].0 <= fc.0 { fr0 } else { fr0.insert(key, fc) });
        let s = choose|s: Seq<StateVariable>| #[trigger] si.traversal_models@[si.estimation_index()].estimate_answer(
            (si.graph.vertices@[key.vertex().0 as int], si.graph.vertices@[t.0 as int]), et.result_state, s, t1, si.state_model, true)
            && fc.0 == clamped_sum(gc, Cost(state_cost(si.cost_model.weights@, s) as i64))
            && i64::MIN <= state_cost(si.cost_model.weights@, s) <= i64::MAX
            && key.vertex().0 < si.graph.vertices@.len() && t.0 < si.graph.vertices@.len();
        assert(state_cost(si.cost_model.weights@, s) == gc.0 + h(key.vertex()));
        assert(fc.0 == clamp(2 * gc.0 + h(key.vertex())));
        if fr0.contains_key(key) {
            assert(c0.contains_key(key));
            assert(fr0[key].0 == clamp(2 * c0[key].0 + h(key.vertex())));
        }
        assert forall|k: Label| #[trigger] fr1.contains_key(k) implies c1.contains_key(k)
            && fr1[k].0 == clamp(2 * c1[k].0 + h(k.vertex())) by {
            if k != key {
                assert(fr0.contains_key(k));
            }
        }
    }
}

/// Whether `route`, found from `source` to `target`, is no costlier than any walk between
/// them: when every traversal of an edge adds the same non-negative cost, labels name
/// vertices alone and the initial state costs nothing, the route is not empty and the
/// cost of its last traversal is no higher than the walk's weight.
pub open spec fn least_route_to<T: TraversalModel, C: ConstraintModel, L: LabelModel>(
    route: Seq<EdgeTraversal>, si: SearchInstance<T, C, L>, direction: Direction, source: VertexId, target: VertexId,
) -> bool {
    forall|weight: spec_fn((EdgeListId, EdgeId)) -> int, w: Seq<(EdgeListId, EdgeId)>|
        #![trigger adds_edge_costs(si, weight), open_walk(si.graph, si.constraint_models@, direction, source, w, target)]
        adds_edge_costs(si, weight) && nonneg_weights(weight) && keys_by_vertex(si)
        && state_cost(si.cost_model.weights@, si.state_model.initial_values@) == 0
        && open_walk(si.graph, si.constraint_models@, direction, source, w, target)
        ==> route.len() > 0 && route.last().cost.objective_cost.0 <= walk_weight(weight, w)
}

/// `least_route_to` for an A* search: under the same conditions, and when every estimate
/// adds an amount that never overestimates, for every walk whose doubled weight fits in a
/// cost value.
pub open spec fn least_route_estimated<T: TraversalModel, C: ConstraintModel, L: LabelModel>(
    route: Seq<EdgeTraversal>, si: SearchInstance<T, C, L>, direction: Direction, source: VertexId, target: VertexId,
) -> bool {
    forall|weight: spec_fn((EdgeListId, EdgeId)) -> int, h: spec_fn(VertexId) -> int, w: Seq<(EdgeListId, EdgeId)>|
        #![trigger adds_edge_costs(si, weight), estimates_add(si, target, h), open_walk(si.graph, si.constraint_models@, direction, source, w, target)]
        adds_edge_costs(si, weight) && nonneg_weights(weight) && keys_by_vertex(si)
        && estimates_add(si, target, h) && admissible(si.graph, si.constraint_models@, direction, target, weight, h)
        && state_cost(si.cost_model.weights@, si.state_model.initial_values@) == 0
        && open_walk(si.graph, si.constraint_models@, direction, source, w, target)
        && 2 * walk_weight(weight, w) < i64::MAX
        ==> route.len() > 0 && route.last().cost.objective_cost.0 <= walk_weight(weight, w)
}

/// Whether no edge has a negative weight.
pub open spec fn nonneg_weights(weight: spec_fn((EdgeListId, EdgeId)) -> int) -> bool {
    forall|ids: (EdgeListId, EdgeId)| #[trigger] weight(ids) >= 0
}

/// Whether tree `t` of a search from `source` holds a least cost at `target`: when every
/// traversal of an edge adds the same non-negative cost, labels name vertices alone and
/// the initial state costs nothing, the tree has a label of `target` whenever a walk from
/// `source` reaches it, and the cost the tree records there is no higher than the walk's.
pub open spec fn least_cost_to<T: TraversalModel, C: ConstraintModel, L: LabelModel>(
    t: SearchTreeView, si: SearchInstance<T, C, L>, direction: Direction, source: VertexId, target: VertexId,
) -> bool {
    forall|weight: spec_fn((EdgeListId, EdgeId)) -> int, w: Seq<(EdgeListId, EdgeId)>|
        #![trigger adds_edge_costs(si, weight), open_walk(si.graph, si.constraint_models@, direction, source, w, target)]
        adds_edge_costs(si, weight) && nonneg_weights(weight) && keys_by_vertex(si)
        && state_cost(si.cost_model.weights@, si.state_model.initial_values@) == 0
        && open_walk(si.graph, si.constraint_models@, direction, source, w, target)
        ==> t.nodes.contains_key(Label::Vertex(target)) && recorded_cost(t, Label::Vertex(target)) <= walk_weight(weight, w)
}

proof fn lemma_walk_weight_nonneg(weight: spec_fn((EdgeListId, EdgeId)) -> int, w: Seq<(EdgeListId, EdgeId)>)
    requires
        nonneg_weights(weight),
    ensures
        walk_weight(weight, w) >= 0,
    decreases w.len(),
{
    if w.len() > 0 {
        assert(weight(w[0]) >= 0);
        lemma_walk_weight_nonneg(weight, w.drop_first());
    }
}

/// Along a walk from a label with a known cost, either a label in the frontier `fr` or
/// the label at the walk's end has a known cost no higher than the start's plus the
/// walk's weight, when every label outside the frontier was followed, every traversal
/// adds a fixed non-negative cost per edge, labels name vertices alone and the initial
/// state costs nothing.
proof fn lemma_walk_frontier<T: TraversalModel, C: ConstraintModel, L: LabelModel>(
    si: SearchInstance<T, C, L>, direction: Direction, t: SearchTreeView, costs: Map<Label, Cost>, fr: Map<Label, Cost>,
    init: Seq<StateVariable>, weight: spec_fn((EdgeListId, EdgeId)) -> int,
    u: VertexId, w: Seq<(EdgeListId, EdgeId)>, to: VertexId,
)
    requires
        adds_edge_costs(si, weight),
        nonneg_weights(weight),
        keys_by_vertex(si),
        state_cost(si.cost_model.weights@, init) == 0,
        priced_by(t, si.cost_model),
        costs_recorded(costs, t),
        forall|k: Label| #[trigger] costs.contains_key(k) ==> fr.contains_key(k) || label_bounded(si, direction, t, k, init, costs),
        costs.contains_key(Label::Vertex(u)),
        open_walk(si.graph, si.constraint_models@, direction, u, w, to),
    ensures
        exists|k: Label, p: Seq<(EdgeListId, EdgeId)>|
            #![trigger costs.contains_key(k), open_walk(si.graph, si.constraint_models@, direction, k.vertex(), p, to)]
            costs.contains_key(k) && (fr.contains_key(k) || k == Label::Vertex(to))
            && open_walk(si.graph, si.constraint_models@, direction, k.vertex(), p, to)
            && costs[k].0 + walk_weight(weight, p) <= costs[Label::Vertex(u)].0 + walk_weight(weight, w),
    decreases w.len(),
{
    let lu = Label::Vertex(u);
    if fr.contains_key(lu) || w.len() == 0 {
        assert(costs.contains_key(lu) && open_walk(si.graph, si.constraint_models@, direction, lu.vertex(), w, to));
    } else {
        let g = si.graph;
        let e = g.edge_at(w[0].0, w[0].1)->0;
        let next = direction.key_vertex(e);
        let j = choose|j: int| 0 <= j < direction.incident_entries(g, u).len()
            && #[trigger] entry_ids(direction.incident_entries(g, u)[j]) == w[0];
        let s = label_state(t, lu, init);
        assert(label_bounded(si, direction, t, lu, init, costs));
        assert(entry_bounded(si, direction, lu.vertex(), j, s, costs));
        assert(open_entry(g, si.constraint_models@, direction, w[0], next));
        let (tr, st, k) = choose|tr: SearchTreeView, st: Seq<StateVariable>, k: Label|
            #![trigger traversed_from(si, w[0], tr, s, st), costs.contains_key(k)]
            traversed_from(si, w[0], tr, s, st)
            && si.label_model.label_answer(next, st, si.state_model, Ok::<Label, LabelModelError>(k))
            && costs.contains_key(k) && costs[k].0 <= state_cost(si.cost_model.weights@, st);
        assert(k == Label::Vertex(next));
        assert(state_cost(si.cost_model.weights@, st) == state_cost(si.cost_model.weights@, s) + weight(w[0]));
        assert(costs[lu].0 == recorded_cost(t, lu));
        if t.nodes.contains_key(lu) && t.nodes[lu].edge() is Some {
            match t.nodes[lu] {
                SearchTreeNodeView::Root { .. } => {},
                SearchTreeNodeView::Branch { .. } => {},
            }
        }
        lemma_walk_frontier(si, direction, t, costs, fr, init, weight, next, w.drop_first(), to);
    }
}

/// The estimates of a distance model, writing to state variable `i` whose weight is not
/// negative, add the weight of `i` times the Chebyshev distance from the vertex to the
/// target.
pub proof fn law_distance_estimates_add<C: ConstraintModel, L: LabelModel>(
    si: SearchInstance<DistanceTraversalModel, C, L>, target: VertexId, i: usize,
)
    requires
        si.estimation_index() < si.traversal_models@.len(),
        si.traversal_models@[si.estimation_index()].distance_index == i,
        si.cost_model.weights@[i as int] >= 0,
    ensures
        estimates_add(si, target, |w: VertexId| if w.0 < si.graph.vertices@.len() {
            si.cost_model.weights@[i as int] * chebyshev(si.graph.vertices@[w.0 as int], si.graph.vertices@[target.0 as int])
        } else { 0 }),
{
    let ws = si.cost_model.weights@;
    let vs = si.graph.vertices@;
    let h = |w: VertexId| if w.0 < vs.len() { ws[i as int] * chebyshev(vs[w.0 as int], vs[target.0 as int]) } else { 0 };
    assert forall|w: VertexId| #[trigger] h(w) >= 0 by {
        if w.0 < vs.len() {
            let wi = ws[i as int] as int;
            let d = chebyshev(vs[w.0 as int], vs[target.0 as int]);
            assert(d >= 0);
            assert(wi * d >= 0) by (nonlinear_arith) requires wi >= 0, d >= 0;
        }
    }
    assert forall|w: VertexId, b: Seq<StateVariable>, st: Seq<StateVariable>, tr: SearchTreeView|
        w.0 < vs.len() && #[trigger] si.traversal_models@[si.estimation_index()].estimate_answer(
            (vs[w.0 as int], vs[target.0 as int]), b, st, tr, si.state_model, true)
        implies state_cost(ws, st) == state_cost(ws, b) + h(w) by {
        let d = chebyshev(vs[w.0 as int], vs[target.0 as int]);
        assert(added_at(b, i as int, d) is Some);
        let x = b[i as int].0 + d;
        assert(st == b.update(i as int, StateVariable(x as i64)));
        lemma_prefix_update(ws, b, i as int, x as i64, b.len());
        let wi = ws[i as int] as int;
        let bi = b[i as int].0 as int;
        assert(wi * (bi + d) - wi * bi == wi * d) by (nonlinear_arith);
    }
}

/// A label's state is unchanged by an insertion at another label.
proof fn lemma_label_state_inserted(t: SearchTreeView, p: Label, et: EdgeTraversalView, key: Label, k: Label, init: Seq<StateVariable>)
    requires
        k != key,
    ensures
        label_state(inserted(t, p, et, key), k, init) == label_state(t, k, init),
{
    let base = if t.nodes.contains_key(p) { t } else { rooted_at(t, p) };
    let n = inserted(t, p, et, key);
    if k == p {
        if t.nodes.contains_key(p) {
            match t.nodes[p] {
                SearchTreeNodeView::Root { .. } => {},
                SearchTreeNodeView::Branch { .. } => {},
            }
        }
    }
}

/// An insertion records the cost of its edge at the inserted label and leaves the
/// recorded cost of every other label unchanged.
proof fn lemma_recorded_inserted(t: SearchTreeView, p: Label, et: EdgeTraversalView, key: Label, k: Label)
    ensures
        recorded_cost(inserted(t, p, et, key), key) == et.cost.objective_cost.0,
        k != key ==> recorded_cost(inserted(t, p, et, key), k) == recorded_cost(t, k),
{
    if k != key && k == p {
        if t.nodes.contains_key(p) {
            match t.nodes[p] {
                SearchTreeNodeView::Root { .. } => {},
                SearchTreeNodeView::Branch { .. } => {},
            }
        }
    }
}

/// A bounded label stays bounded when its state is unchanged, known costs only fall and
/// more labels get them.
proof fn lemma_bounded_grows<T: TraversalModel, C: ConstraintModel, L: LabelModel>(
    si: SearchInstance<T, C, L>, direction: Direction, t0: SearchTreeView, t1: SearchTreeView, l: Label, init: Seq<StateVariable>,
    c0: Map<Label, Cost>, c1: Map<Label, Cost>,
)
    requires
        label_bounded(si, direction, t0, l, init, c0),
        label_state(t0, l, init) == label_state(t1, l, init),
        forall|k: Label| #[trigger] c0.contains_key(k) ==> c1.contains_key(k) && c1[k].0 <= c0[k].0,
    ensures
        label_bounded(si, direction, t1, l, init, c1),
{
    let s = label_state(t0, l, init);
    assert forall|j: int| 0 <= j < direction.incident_entries(si.graph, l.vertex()).len()
        implies #[trigger] entry_bounded(si, direction, l.vertex(), j, s, c1) by {
        assert(entry_bounded(si, direction, l.vertex(), j, s, c0));
        lemma_edge_bounded_grows(si, direction, entry_ids(direction.incident_entries(si.graph, l.vertex())[j]), s, c0, c1);
    }
}

/// A followed edge stays followed when known costs only fall and more labels get them.
proof fn lemma_edge_bounded_grows<T: TraversalModel, C: ConstraintModel, L: LabelModel>(
    si: SearchInstance<T, C, L>, direction: Direction, ids: (EdgeListId, EdgeId), s: Seq<StateVariable>,
    c0: Map<Label, Cost>, c1: Map<Label, Cost>,
)
    requires
        edge_bounded(si, direction, ids, s, c0),
        forall|k: Label| #[trigger] c0.contains_key(k) ==> c1.contains_key(k) && c1[k].0 <= c0[k].0,
    ensures
        edge_bounded(si, direction, ids, s, c1),
{
    assert forall|w: VertexId| #[trigger] open_entry(si.graph, si.constraint_models@, direction, ids, w)
        implies exists|tr: SearchTreeView, st: Seq<StateVariable>, k: Label|
            #![trigger traversed_from(si, ids, tr, s, st), c1.contains_key(k)]
            traversed_from(si, ids, tr, s, st)
            && si.label_model.label_answer(w, st, si.state_model, Ok::<Label, LabelModelError>(k))
            && c1.contains_key(k) && c1[k].0 <= state_cost(si.cost_model.weights@, st) by {
        let (tr, st, k) = choose|tr: SearchTreeView, st: Seq<StateVariable>, k: Label|
            #![trigger traversed_from(si, ids, tr, s, st), c0.contains_key(k)]
            traversed_from(si, ids, tr, s, st)
            && si.label_model.label_answer(w, st, si.state_model, Ok::<Label, LabelModelError>(k))
            && c0.contains_key(k) && c0[k].0 <= state_cost(si.cost_model.weights@, st);
        assert(c1.contains_key(k));
    }
}

/// One step of the search keeps what the search knows of costs: the recorded costs match
/// the known ones, known costs only fall, a label outside the frontier keeps its state,
/// and the edge was followed from the popped state.
proof fn lemma_relax_keeps_bounds<T: TraversalModel, C: ConstraintModel, L: LabelModel>(
    si: SearchInstance<T, C, L>, a_star: bool, target: Option<VertexId>, edge: (EdgeListId, EdgeId), f: FrontierInstance,
    direction: Direction, t0: SearchTreeView, t1: SearchTreeView, c0: Map<Label, Cost>, c1: Map<Label, Cost>,
    fr0: Map<Label, Cost>, fr1: Map<Label, Cost>, init: Seq<StateVariable>,
)
    requires
        ({
            ||| (t1 == t0 && fr1 == fr0 && c1 == c0 && skip_allowed(edge, f, c0, t0, direction, si))
            ||| relaxed_through(si, a_star, target, edge, f.prev_state@, direction, si.graph, t0, t1, c0, c1, fr0, fr1)
        }),
        forall|k: Label| #[trigger] fr0.contains_key(k) ==> fr1.contains_key(k),
        costs_recorded(c0, t0),
    ensures
        costs_recorded(c1, t1),
        forall|k: Label| #[trigger] c0.contains_key(k) ==> c1.contains_key(k) && c1[k].0 <= c0[k].0,
        forall|k: Label| #[trigger] c1.contains_key(k) && !fr1.contains_key(k)
            ==> c0.contains_key(k) && label_state(t1, k, init) == label_state(t0, k, init),
        edge_bounded(si, direction, edge, f.prev_state@, c1),
        keys_by_vertex(si) ==> forall|k: Label| #[trigger] c1.contains_key(k) ==> c0.contains_key(k) || k == Label::Vertex(k.vertex()),
        (!a_star || target is None) && (forall|k: Label| #[trigger] fr0.contains_key(k) ==> c0.contains_key(k) && fr0[k] == c0[k])
            ==> forall|k: Label| #[trigger] fr1.contains_key(k) ==> c1.contains_key(k) && fr1[k] == c1[k],
        keys_by_vertex(si) && vertex_keyed(t0) ==> vertex_keyed(t1),
{
    let g = si.graph;
    let s = f.prev_state@;
    if t1 == t0 && fr1 == fr0 && c1 == c0 && skip_allowed(edge, f, c0, t0, direction, si) {
        assert forall|w: VertexId| #[trigger] open_entry(g, si.constraint_models@, direction, edge, w)
            implies exists|tr: SearchTreeView, st: Seq<StateVariable>, k: Label|
                #![trigger traversed_from(si, edge, tr, s, st), c1.contains_key(k)]
                traversed_from(si, edge, tr, s, st)
                && si.label_model.label_answer(w, st, si.state_model, Ok::<Label, LabelModelError>(k))
                && c1.contains_key(k) && c1[k].0 <= state_cost(si.cost_model.weights@, st) by {
            let e = g.edge_at(edge.0, edge.1)->0;
            let m = si.constraint_models@[edge.0.0 as int];
            if m.frontier_answer(e, arrival_edge(g, f.prev_edge), s, si.state_model, Ok::<bool, ConstraintModelError>(false)) {
                assert(must_accept(m, e));
                assert(false);
            }
            let (st, k) = choose|st: Seq<StateVariable>, k: Label|
                #![trigger traversed_from(si, edge, t0, s, st), c0.contains_key(k)]
                traversed_from(si, edge, t0, s, st)
                && si.label_model.label_answer(direction.key_vertex(e), st, si.state_model, Ok::<Label, LabelModelError>(k))
                && k.vertex() == direction.key_vertex(e)
                && c0.contains_key(k) && c0[k].0 <= state_cost(si.cost_model.weights@, st);
            assert(traversed_from(si, edge, t0, s, st) && c1.contains_key(k));
        }
    } else {
        let e = g.edge_at(edge.0, edge.1)->0;
        let (p, et, key) = choose|p: Label, et: EdgeTraversalView, key: Label| {
            &&& #[trigger] inserted(t0, p, et, key) == t1
            &&& et.edge_list_id == e.edge_list_id && et.edge_id == e.edge_id
            &&& key.vertex() == direction.key_vertex(e)
            &&& traversed_from(si, edge, t0, s, et.result_state)
            &&& si.label_model.label_answer(direction.key_vertex(e), et.result_state, si.state_model, Ok::<Label, LabelModelError>(key))
            &&& si.label_model.label_answer(direction.start_vertex(e), s, si.state_model, Ok::<Label, LabelModelError>(p))
            &&& et.cost.objective_cost.0 == state_cost(si.cost_model.weights@, et.result_state)
            &&& c1 == c0.insert(key, et.cost.objective_cost)
            &&& (c0.contains_key(key) ==> et.cost.objective_cost.0 < c0[key].0)
            &&& fr1.contains_key(key)
            &&& exists|fc: Cost| #[trigger] priority_of(si, a_star, target, key.vertex(), et.result_state, t1, et.cost.objective_cost, fc)
                && fr1 == (if fr0.contains_key(key) && fr0[key].0 <= fc.0 { fr0 } else { fr0.insert(key, fc) })
        };
        assert forall|k: Label| #[trigger] c1.contains_key(k) implies c1[k].0 == recorded_cost(t1, k) by {
            lemma_recorded_inserted(t0, p, et, key, k);
        }
        assert forall|k: Label| #[trigger] c1.contains_key(k) && !fr1.contains_key(k)
            implies c0.contains_key(k) && label_state(t1, k, init) == label_state(t0, k, init) by {
            lemma_label_state_inserted(t0, p, et, key, k, init);
        }
        assert forall|w: VertexId| #[trigger] open_entry(g, si.constraint_models@, direction, edge, w)
            implies exists|tr: SearchTreeView, st: Seq<StateVariable>, k: Label|
                #![trigger traversed_from(si, edge, tr, s, st), c1.contains_key(k)]
                traversed_from(si, edge, tr, s, st)
                && si.label_model.label_answer(w, st, si.state_model, Ok::<Label, LabelModelError>(k))
                && c1.contains_key(k) && c1[k].0 <= state_cost(si.cost_model.weights@, st) by {
            assert(traversed_from(si, edge, t0, s, et.result_state) && c1.contains_key(key));
        }
        if (!a_star || target is None) && (forall|k: Label| #[trigger] fr0.contains_key(k) ==> c0.contains_key(k) && fr0[k] == c0[k]) {
            let fc = choose|fc: Cost| #[trigger] priority_of(si, a_star, target, key.vertex(), et.result_state, t1, et.cost.objective_cost, fc)
                && fr1 == (if fr0.contains_key(key) && fr0[key].0 <= fc.0 { fr0 } else { fr0.insert(key, fc) });
            assert(fc.0 == et.cost.objective_cost.0);
            if fr0.contains_key(key) {
                assert(c0.contains_key(key));
            }
            assert(fr1 == fr0.insert(key, fc));
            assert forall|k: Label| #[trigger] fr1.contains_key(k) implies c1.contains_key(k) && fr1[k] == c1[k] by {
                if k == key {
                    assert(fc == et.cost.objective_cost);
                }
            }
        }
        if keys_by_vertex(si) && vertex_keyed(t0) {
            assert(key == Label::Vertex(key.vertex()));
            assert(p == Label::Vertex(direction.start_vertex(e)));
            assert forall|l: Label| #[trigger] t1.nodes.contains_key(l) implies l == Label::Vertex(l.vertex()) by {
                if l != key && l != p {
                    assert(t0.nodes.contains_key(l));
                }
            }
        }
    }
}

/// Along a walk, known costs grow by no more than the walk's weight, when every label
/// with a known cost was followed, every traversal adds a fixed cost per edge, labels name
/// vertices alone and the initial state costs nothing.
proof fn lemma_walk_bound<T: TraversalModel, C: ConstraintModel, L: LabelModel>(
    si: SearchInstance<T, C, L>, direction: Direction, t: SearchTreeView, costs: Map<Label, Cost>,
    init: Seq<StateVariable>, weight: spec_fn((EdgeListId, EdgeId)) -> int,
    u: VertexId, w: Seq<(EdgeListId, EdgeId)>, to: VertexId,
)
    requires
        adds_edge_costs(si, weight),
        keys_by_vertex(si),
        state_cost(si.cost_model.weights@, init) == 0,
        priced_by(t, si.cost_model),
        costs_recorded(costs, t),
        forall|k: Label| #[trigger] costs.contains_key(k) ==> label_bounded(si, direction, t, k, init, costs),
        costs.contains_key(Label::Vertex(u)),
        open_walk(si.graph, si.constraint_models@, direction, u, w, to),
    ensures
        costs.contains_key(Label::Vertex(to)),
        costs[Label::Vertex(to)].0 <= costs[Label::Vertex(u)].0 + walk_weight(weight, w),
    decreases w.len(),
{
    if w.len() > 0 {
        let g = si.graph;
        let lu = Label::Vertex(u);
        let e = g.edge_at(w[0].0, w[0].1)->0;
        let next = direction.key_vertex(e);
        let j = choose|j: int| 0 <= j < direction.incident_entries(g, u).len()
            && #[trigger] entry_ids(direction.incident_entries(g, u)[j]) == w[0];
        let s = label_state(t, lu, init);
        assert(label_bounded(si, direction, t, lu, init, costs));
        assert(entry_bounded(si, direction, lu.vertex(), j, s, costs));
        assert(open_entry(g, si.constraint_models@, direction, w[0], next));
        let (tr, st, k) = choose|tr: SearchTreeView, st: Seq<StateVariable>, k: Label|
            #![trigger traversed_from(si, w[0], tr, s, st), costs.contains_key(k)]
            traversed_from(si, w[0], tr, s, st)
            && si.label_model.label_answer(next, st, si.state_model, Ok::<Label, LabelModelError>(k))
            && costs.contains_key(k) && costs[k].0 <= state_cost(si.cost_model.weights@, st);
        assert(k == Label::Vertex(next));
        assert(state_cost(si.cost_model.weights@, st) == state_cost(si.cost_model.weights@, s) + weight(w[0]));
        assert(costs[lu].0 == recorded_cost(t, lu));
        if t.nodes.contains_key(lu) && t.nodes[lu].edge() is Some {
            match t.nodes[lu] {
                SearchTreeNodeView::Root { .. } => {},
                SearchTreeNodeView::Branch { .. } => {},
            }
        }
        assert(state_cost(si.cost_model.weights@, s) == costs[lu].0);
        lemma_walk_bound(si, direction, t, costs, init, weight, next, w.drop_first(), to);
    }
}

/// The graph edge a search arrived through, when it arrived through one.
pub open spec fn arrival_edge(g: Graph, prev: Option<(EdgeListId, EdgeId)>) -> Option<Edge> {
    match prev {
        Some((l, e)) => g.edge_at(l, e),
        None => None,
    }
}

/// Whether a search may leave `edge` unfollowed from the popped label of `f`, with the
/// search tree `tree`: the edge is in the graph, and the constraint model of its edge list
/// may refuse it from the popped state, or the traversal model may reach a state whose
/// label (as the label model may give it) already has a known cost in `costs` no higher
/// than the cost of that state.
pub open spec fn skip_allowed<T: TraversalModel, C: ConstraintModel, L: LabelModel>(
    edge: (EdgeListId, EdgeId),
    f: FrontierInstance,
    costs: Map<Label, Cost>,
    tree: SearchTreeView,
    direction: Direction,
    si: SearchInstance<T, C, L>,
) -> bool {
    &&& si.graph.edge_at(edge.0, edge.1) matches Some(e)
    &&& {
        ||| (edge.0.0 < si.constraint_models@.len() && si.constraint_models@[edge.0.0 as int].frontier_answer(
            e, arrival_edge(si.graph, f.prev_edge), f.prev_state@, si.state_model, Ok::<bool, ConstraintModelError>(false)))
        ||| exists|st: Seq<StateVariable>, k: Label|
            #![trigger traversed_from(si, edge, tree, f.prev_state@, st), costs.contains_key(k)]
            traversed_from(si, edge, tree, f.prev_state@, st)
            && si.label_model.label_answer(direction.key_vertex(e), st, si.state_model, Ok::<Label, LabelModelError>(k))
            && k.vertex() == direction.key_vertex(e)
            && costs.contains_key(k) && costs[k].0 <= state_cost(si.cost_model.weights@, st)
    }
}

/// Whether `f` is the frontier priority of a label of vertex `w` reached at cost `g` in
/// state `state`, with the search tree `tree`: with the A* heuristic toward a target
/// `t`, `g` plus the cost of a state the estimation model may give for the way from `w`
/// to `t`; otherwise `g` itself.
pub open spec fn priority_of<T: TraversalModel, C: ConstraintModel, L: LabelModel>(
    si: SearchInstance<T, C, L>,
    a_star: bool,
    target: Option<VertexId>,
    w: VertexId,
    state: Seq<StateVariable>,
    tree: SearchTreeView,
    g: Cost,
    f: Cost,
) -> bool {
    match target {
        Some(t) => if a_star {
            exists|s: Seq<StateVariable>| #[trigger] si.traversal_models@[si.estimation_index()].estimate_answer(
                (si.graph.vertices@[w.0 as int], si.graph.vertices@[t.0 as int]), state, s, tree, si.state_model, true)
                && f.0 == clamped_sum(g, Cost(state_cost(si.cost_model.weights@, s) as i64))
                && i64::MIN <= state_cost(si.cost_model.weights@, s) <= i64::MAX
                && w.0 < si.graph.vertices@.len() && t.0 < si.graph.vertices@.len()
        } else {
            f.0 == clamped_sum(g, Cost(0))
        },
        None => f.0 == clamped_sum(g, Cost(0)),
    }
}

/// Whether following `edge` from state `prev_state` took the search from tree `t0`,
/// costs `c0` to tree `t1`, costs `c1` and frontier `fr1`: the tree gained a branch,
/// carrying a traversal of the edge from `prev_state`, at the label `key` that the label
/// model gave the vertex the edge reaches in the state the traversal left; the cost of
/// `key` became the traversal's objective cost (the cost of that state), lower than any
/// it had; and the frontier `fr0` became `fr1` by entering `key` at its priority through
/// this traversal (`priority_of`), unless it held `key` at no higher a priority.
pub open spec fn relaxed_through<T: TraversalModel, C: ConstraintModel, L: LabelModel>(
    si: SearchInstance<T, C, L>,
    a_star: bool,
    target: Option<VertexId>,
    edge: (EdgeListId, EdgeId),
    prev_state: Seq<StateVariable>,
    direction: Direction,
    g: Graph,
    t0: SearchTreeView,
    t1: SearchTreeView,
    c0: Map<Label, Cost>,
    c1: Map<Label, Cost>,
    fr0: Map<Label, Cost>,
    fr1: Map<Label, Cost>,
) -> bool {
    &&& g.edge_at(edge.0, edge.1) matches Some(e)
    &&& exists|p: Label, et: EdgeTraversalView, key: Label| {
        &&& #[trigger] inserted(t0, p, et, key) == t1
        &&& et.edge_list_id == e.edge_list_id && et.edge_id == e.edge_id
        &&& key.vertex() == direction.key_vertex(e)
        &&& traversed_from(si, edge, t0, prev_state, et.result_state)
        &&& si.label_model.label_answer(direction.key_vertex(e), et.result_state, si.state_model, Ok::<Label, LabelModelError>(key))
        &&& si.label_model.label_answer(direction.start_vertex(e), prev_state, si.state_model, Ok::<Label, LabelModelError>(p))
        &&& et.cost.objective_cost.0 == state_cost(si.cost_model.weights@, et.result_state)
        &&& c1 == c0.insert(key, et.cost.objective_cost)
        &&& (c0.contains_key(key) ==> et.cost.objective_cost.0 < c0[key].0)
        &&& fr1.contains_key(key)
        &&& exists|f: Cost| #[trigger] priority_of(si, a_star, target, key.vertex(), et.result_state, t1, et.cost.objective_cost, f)
            && fr1 == (if fr0.contains_key(key) && fr0[key].0 <= f.0 { fr0 } else { fr0.insert(key, f) })
    }
}

/// Follows one edge out of the popped label of `f`, one step of the search that
/// [`run_vertex_oriented`] makes: when the constraint model allows it and the traversal
/// improves on the best known cost of the label it reaches, the tree records the
/// traversal and the reached label enters the frontier at its cost plus, with the A*
/// heuristic, the estimate from the reached vertex to the target.
pub fn relax_edge<T: TraversalModel, C: ConstraintModel, L: LabelModel>(
    edge: (EdgeListId, EdgeId),
    f: &FrontierInstance,
    frontier: &mut InternalPriorityQueue<Label>,
    traversal_costs: &mut InternalPriorityQueue<Label>,
    solution: &mut SearchTree,
    source: VertexId,
    target: Option<VertexId>,
    direction: Direction,
    a_star: bool,
    initial_label: Label,
    si: &SearchInstance<T, C, L>,
) -> (r: Result<(), SearchError>)
    requires
        search_state_ok(old(solution)@, old(frontier)@, si.graph, si.cost_model, si.constraint_models@, direction, source, initial_label),
        si.graph.wf() ==> (si.graph.edge_at(edge.0, edge.1) matches Some(e) ==> direction.start_vertex(e) == f.prev_label.vertex()),
        old(solution)@.nodes.len() == 0 ==> f.prev_label == initial_label,
        a_star && target is Some ==> si.estimation_index() < si.traversal_models@.len(),
    ensures
        search_state_ok(final(solution)@, final(frontier)@, si.graph, si.cost_model, si.constraint_models@, direction, source, initial_label),
        final(solution)@.nodes.len() == 0 ==> old(solution)@.nodes.len() == 0,
        r matches Err(e) ==> !(e is NoPathExistsBetweenVertices),
        r is Ok ==> {
            ||| (final(solution)@ == old(solution)@ && final(frontier)@ == old(frontier)@
                && final(traversal_costs)@ == old(traversal_costs)@
                && skip_allowed(edge, *f, old(traversal_costs)@, old(solution)@, direction, *si))
            ||| relaxed_through(*si, a_star, target, edge, f.prev_state@, direction, si.graph, old(solution)@, final(solution)@,
                old(traversal_costs)@, final(traversal_costs)@, old(frontier)@, final(frontier)@)
        },
        r is Ok ==> forall|k: Label| #[trigger] old(traversal_costs)@.contains_key(k) ==> final(traversal_costs)@.contains_key(k),
        r is Ok ==> forall|k: Label| #[trigger] final(traversal_costs)@.contains_key(k)
            ==> old(traversal_costs)@.contains_key(k) || final(solution)@.nodes.contains_key(k),
        r is Ok ==> forall|k: Label| #[trigger] old(solution)@.nodes.contains_key(k) ==> final(solution)@.nodes.contains_key(k),
        r is Ok ==> forall|k: Label| #[trigger] old(frontier)@.contains_key(k) ==> final(frontier)@.contains_key(k),
        r is Ok ==> forall|k: Label| #[trigger] final(frontier)@.contains_key(k)
            ==> old(frontier)@.contains_key(k) || final(traversal_costs)@.contains_key(k),
        r is Ok ==> edge_settled(si.graph, si.constraint_models@, direction, edge, final(traversal_costs)@),
{
    let ghost g = si.graph;
    let (edge_list_id, edge_id) = edge;
    let e = match si.graph.get_edge(&edge_list_id, &edge_id) {
        Ok(e) => e,
        Err(err) => return Err(SearchError::NetworkFailure { source: err }),
    };
    let terminal_vertex_id = direction.terminal_vertex_id(e);
    let terminal_label = match si.label_model.label_from_state(terminal_vertex_id, &f.prev_state, &si.state_model) {
        Ok(l) => l,
        Err(err) => return Err(SearchError::LabelFailure { source: err }),
    };
    let key_vertex_id = direction.tree_key_vertex_id(e);
    let previous_edge: Option<&Edge> = match f.prev_edge {
        Some((pel, pe)) => match si.graph.get_edge(&pel, &pe) {
            Ok(p) => Some(p),
            Err(err) => return Err(SearchError::NetworkFailure { source: err }),
        },
        None => None,
    };
    let cm = match si.get_constraint_model(&edge_list_id) {
        Ok(cm) => cm,
        Err(err) => return Err(err),
    };
    proof {
        assert(edge_of(previous_edge) == arrival_edge(si.graph, f.prev_edge));
    }
    let answer = cm.valid_frontier(e, previous_edge, &f.prev_state, &si.state_model);
    let valid_frontier = match answer {
        Ok(b) => b,
        Err(err) => return Err(SearchError::ConstraintFailure { source: err }),
    };
    if !valid_frontier {
        proof {
            assert(answer == Ok::<bool, ConstraintModelError>(false));
            assert forall|w: VertexId| #[trigger] open_entry(si.graph, si.constraint_models@, direction, edge, w)
                implies exists|k: Label| #[trigger] traversal_costs@.contains_key(k) && k.vertex() == w by {
                assert(cm.frontier_answer(*e, edge_of(previous_edge), f.prev_state@, si.state_model, answer));
            }
        }
        return Ok(());
    }
    let et = match EdgeTraversal::new((edge_list_id, edge_id), &*solution, &f.prev_state, si) {
        Ok(et) => et,
        Err(err) => return Err(err),
    };
    let key_label = match si.label_model.label_from_state(key_vertex_id, &et.result_state, &si.state_model) {
        Ok(l) => l,
        Err(err) => return Err(SearchError::LabelFailure { source: err }),
    };
    let tentative_gscore = et.cost.objective_cost;
    let reached_state = et.result_state.clone();
    let improves = match traversal_costs.get(&key_label) {
        None => true,
        Some(existing) => tentative_gscore.0 < existing.0,
    };
    if !improves {
        proof {
            assert(traversed_from(*si, edge, old(solution)@, f.prev_state@, et.result_state@));
            assert(traversal_costs@.contains_key(key_label));
            assert forall|w: VertexId| #[trigger] open_entry(si.graph, si.constraint_models@, direction, edge, w)
                implies exists|k: Label| #[trigger] traversal_costs@.contains_key(k) && k.vertex() == w by {
                assert(key_label.vertex() == w);
            }
        }
        return Ok(());
    }
    let ghost c0 = traversal_costs@;
    traversal_costs.push(key_label, tentative_gscore);
    let ghost t0 = solution@;
    let ghost etv = et@;
    match solution.insert(terminal_label, et, key_label) {
        Ok(()) => {},
        Err(err) => return Err(SearchError::SearchTreeFailure { source: err }),
    }
    proof {
        law_insert_keeps_wf(t0, terminal_label, etv, key_label);
        lemma_priced_after_insert(t0, si.cost_model, terminal_label, etv, key_label);
        if g.wf() {
            assert(si.graph.edge_at(etv.edge_list_id, etv.edge_id) == Some(*e));
            assert(etv.edge_list_id == edge_list_id);
            lemma_allowed_after_insert(t0, si.graph, si.constraint_models@, terminal_label, etv, key_label, *e);
        }
        if g.wf() {
            assert(g.edge_at(etv.edge_list_id, etv.edge_id) == Some(*e));
            lemma_follows_after_insert(t0, g, terminal_label, etv, key_label, *e);
            lemma_roots_after_insert(t0, terminal_label, etv, key_label, source);
        }
    }
    let dst_h_cost: Cost = match target {
        Some(t) => {
            if a_star {
                match estimate_traversal_cost(key_vertex_id, t, &reached_state, &*solution, si) {
                    Ok(c) => c.objective_cost,
                    Err(err) => return Err(err),
                }
            } else {
                Cost(0)
            }
        },
        None => Cost(0),
    };
    let ghost t1 = solution@;
    let f_score = add_costs(tentative_gscore, dst_h_cost);
    let ghost fr_before = frontier@;
    frontier.push_increase(key_label, f_score);
    proof {
        assert(inserted(t0, terminal_label, etv, key_label) == solution@);
        assert(traversal_costs@ == c0.insert(key_label, etv.cost.objective_cost));
        assert(frontier@.contains_key(key_label));
        assert forall|w: VertexId| #[trigger] open_entry(si.graph, si.constraint_models@, direction, edge, w)
            implies exists|k: Label| #[trigger] traversal_costs@.contains_key(k) && k.vertex() == w by {
            assert(traversal_costs@.contains_key(key_label) && key_label.vertex() == w);
        }
        assert(priority_of(*si, a_star, target, key_label.vertex(), etv.result_state, t1, etv.cost.objective_cost, f_score));
        assert(frontier@ == (if fr_before.contains_key(key_label) && fr_before[key_label].0 <= f_score.0 { fr_before }
            else { fr_before.insert(key_label, f_score) }));
    }
    Ok(())
}

/// Runs an A* search over the graph, from `source` toward `target` (or over the whole
/// reachable graph when there is none), following edges in `direction`; with `a_star`
/// false, or without target, the heuristic is zero and the search is Dijkstra's.
/// A target equal to the source gives an empty result at once. Where every traversal
/// adds a fixed cost per edge, labels name vertices alone and the initial state costs
/// nothing, a search that runs to its end records least costs: at every vertex it
/// reaches without a target (`least_costs`); with non-negative costs, at the target
/// without the heuristic (`least_cost_to`), and with it when its estimates never
/// overestimate (`least_cost_estimated`).
pub fn run_vertex_oriented<T: TraversalModel, C: ConstraintModel, L: LabelModel>(
    source: VertexId,
    target: Option<VertexId>,
    direction: &Direction,
    a_star: bool,
    si: &SearchInstance<T, C, L>,
) -> (r: Result<SearchResult, SearchError>)
    requires
        a_star && target is Some && target != Some(source) ==> si.estimation_index() < si.traversal_models@.len(),
    ensures
        vertex_search_result(r, source, target, *direction, si.graph, si.cost_model, si.constraint_models@),
        r matches Ok(res) ==> (res.terminated is Some ==> stops(si.termination_model, res.tree@.nodes.len(), res.iterations)
            || res.iterations == u64::MAX),
        r matches Err(SearchError::NoPathExistsBetweenVertices(_, t, _)) ==> !reaches_open(si.graph, si.constraint_models@, *direction, source, t),
        target is None ==> (r matches Ok(res) ==> (res.terminated is None ==> forall|v: VertexId|
            #[trigger] reaches_open(si.graph, si.constraint_models@, *direction, source, v) ==> v == source || has_vertex(res.tree@, v))),
        target is None ==> (r matches Ok(res) ==> (res.terminated is None ==> least_costs(res.tree@, *si, *direction, source))),
        !a_star ==> (target matches Some(t) ==> (t != source ==> (r matches Ok(res) ==> (res.terminated is None
            ==> least_cost_to(res.tree@, *si, *direction, source, t))))),
        a_star ==> (target matches Some(t) ==> (t != source ==> (r matches Ok(res) ==> (res.terminated is None
            ==> least_cost_estimated(res.tree@, *si, *direction, source, t))))),
        keys_by_vertex(*si) ==> (r matches Ok(res) ==> vertex_keyed(res.tree@)),
{
    if let Some(t) = target {
        if t.0 == source.0 {
            return Ok(SearchResult::default());
        }
    }
    let ghost g = si.graph;
    let mut frontier: InternalPriorityQueue<Label> = InternalPriorityQueue::new();
    let mut traversal_costs: InternalPriorityQueue<Label> = InternalPriorityQueue::new();
    let mut solution = SearchTree::new(*direction);
    proof { law_empty_tree_wf(*direction); }

    let initial_state = match si.state_model.initial_state(None) {
        Ok(s) => s,
        Err(e) => return Err(SearchError::StateFailure { source: e }),
    };
    let initial_label = match si.label_model.label_from_state(source, &initial_state, &si.state_model) {
        Ok(l) => l,
        Err(e) => return Err(SearchError::LabelFailure { source: e }),
    };
    traversal_costs.push(initial_label, Cost(0));
    let origin_cost: Cost = match target {
        Some(t) => {
            if a_star {
                match estimate_traversal_cost(source, t, &initial_state, &solution, si) {
                    Ok(c) => c.objective_cost,
                    Err(e) => return Err(e),
                }
            } else {
                Cost(0)
            }
        },
        None => Cost(0),
    };
    frontier.push(initial_label, origin_cost);
    proof {
        if a_star {
            if let Some(t) = target {
                let s0 = choose|s: Seq<StateVariable>| #[trigger] cost_defined(si.cost_model.weights@, s)
                    && origin_cost.0 == state_cost(si.cost_model.weights@, s)
                    && si.traversal_models@[si.estimation_index()].estimate_answer(
                        (si.graph.vertices@[source.0 as int], si.graph.vertices@[t.0 as int]), initial_state@, s, solution@, si.state_model, true);
                assert forall|h: spec_fn(VertexId) -> int| #[trigger] estimates_add(*si, t, h)
                    && state_cost(si.cost_model.weights@, si.state_model.initial_values@) == 0
                    implies at_estimated_priority(frontier@, traversal_costs@, h) by {
                    assert(state_cost(si.cost_model.weights@, s0) == h(source));
                }
            }
        }
    }

    let mut iterations: u64 = 0;
    loop
        invariant_except_break
            forall|k: Label| #[trigger] traversal_costs@.contains_key(k) ==> frontier@.contains_key(k)
                || (label_closed(si.graph, si.constraint_models@, *direction, target, k, traversal_costs@)
                    && label_bounded(*si, *direction, solution@, k, initial_state@, traversal_costs@)),
        invariant
            search_state_ok(solution@, frontier@, si.graph, si.cost_model, si.constraint_models@, *direction, source, initial_label),
            si.label_model.label_answer(source, initial_state@, si.state_model, Ok::<Label, LabelModelError>(initial_label)),
            initial_state@ == si.state_model.initial_values@,
            costs_recorded(traversal_costs@, solution@),
            traversal_costs@[initial_label].0 <= 0,
            keys_by_vertex(*si) ==> forall|k: Label| #[trigger] traversal_costs@.contains_key(k) ==> k == Label::Vertex(k.vertex()),
            keys_by_vertex(*si) ==> vertex_keyed(solution@),
            !a_star || target is None ==> forall|k: Label| #[trigger] frontier@.contains_key(k)
                ==> traversal_costs@.contains_key(k) && frontier@[k] == traversal_costs@[k],
            a_star ==> (target matches Some(t) ==> forall|h: spec_fn(VertexId) -> int| #[trigger] estimates_add(*si, t, h)
                && state_cost(si.cost_model.weights@, si.state_model.initial_values@) == 0
                ==> at_estimated_priority(frontier@, traversal_costs@, h)),
            target != Some(source),
            a_star && target is Some ==> si.estimation_index() < si.traversal_models@.len(),
            traversal_costs@.contains_key(initial_label),
            forall|k: Label| #[trigger] frontier@.contains_key(k) ==> traversal_costs@.contains_key(k),
            forall|k: Label| #[trigger] traversal_costs@.contains_key(k) ==> k == initial_label || solution@.nodes.contains_key(k),
        ensures
            search_state_ok(solution@, frontier@, si.graph, si.cost_model, si.constraint_models@, *direction, source, initial_label),
            target matches Some(t) ==> has_vertex(solution@, t),
            traversal_costs@.contains_key(initial_label),
            forall|k: Label| #[trigger] frontier@.contains_key(k) ==> traversal_costs@.contains_key(k),
            forall|k: Label| #[trigger] traversal_costs@.contains_key(k) ==> k == initial_label || solution@.nodes.contains_key(k),
            target is None ==> forall|k: Label| #[trigger] traversal_costs@.contains_key(k)
                ==> label_closed(si.graph, si.constraint_models@, *direction, target, k, traversal_costs@),
            target is None ==> forall|k: Label| #[trigger] traversal_costs@.contains_key(k)
                ==> label_bounded(*si, *direction, solution@, k, initial_state@, traversal_costs@),
            costs_recorded(traversal_costs@, solution@),
            traversal_costs@[initial_label].0 <= 0,
            keys_by_vertex(*si) ==> forall|k: Label| #[trigger] traversal_costs@.contains_key(k) ==> k == Label::Vertex(k.vertex()),
            keys_by_vertex(*si) ==> vertex_keyed(solution@),
            !a_star || target is None ==> forall|k: Label| #[trigger] frontier@.contains_key(k)
                ==> traversal_costs@.contains_key(k) && frontier@[k] == traversal_costs@[k],
            a_star ==> (target matches Some(t) ==> forall|h: spec_fn(VertexId) -> int| #[trigger] estimates_add(*si, t, h)
                && state_cost(si.cost_model.weights@, si.state_model.initial_values@) == 0
                ==> at_estimated_priority(frontier@, traversal_costs@, h)),
            !a_star ==> (target matches Some(t) ==> least_cost_to(solution@, *si, *direction, source, t)),
            a_star ==> (target matches Some(t) ==> least_cost_estimated(solution@, *si, *direction, source, t)),

        decreases u64::MAX - iterations,
    {
        if iterations == u64::MAX {
            return Ok(SearchResult::terminated(solution, iterations, "search exhausted its iteration counter".to_owned()));
        }
        match si.termination_model.continue_or_explain(&solution, iterations) {
            Some(explanation) => return Ok(SearchResult::terminated(solution, iterations, explanation)),
            None => {},
        }
        let ghost before = frontier@;
        let popped = FrontierInstance::pop_new(&mut frontier, source, target, &solution, &initial_state);
        let f = match popped {
            Err(e) => {
                proof {
                    assert(before.len() == 0);
                    if let Some(t) = target {
                        assert forall|k: Label| #[trigger] traversal_costs@.contains_key(k)
                            implies label_closed(si.graph, si.constraint_models@, *direction, target, k, traversal_costs@) by {
                            assert(!before.contains_key(k));
                        }
                        lemma_open_reached(si.graph, si.constraint_models@, *direction, target, traversal_costs@, initial_label, source);
                        if reaches_open(si.graph, si.constraint_models@, *direction, source, t) {
                            let k = choose|k: Label| #[trigger] traversal_costs@.contains_key(k) && k.vertex() == t;
                            assert(label_closed(si.graph, si.constraint_models@, *direction, target, k, traversal_costs@));
                        }
                    }
                }
                return Err(e);
            },
            Ok(None) => {
                proof {
                    if let Some(t) = target {
                        assert(before.len() > 0);
                        let l = choose|l: Label| #[trigger] is_cheapest(before, l)
                            && frontier@ == before.remove(l)
                            && if target == Some(l.vertex()) {
                                popped == Ok::<Option<FrontierInstance>, SearchError>(None)
                            } else {
                                popped matches Ok(Some(fi)) && frontier_for(fi, l, solution@, initial_state@)
                            };
                        assert(target == Some(l.vertex()));
                        assert(before.contains_key(l));
                        assert(l != initial_label);
                        assert(solution@.nodes.contains_key(l) && l.vertex() == t);
                        if !a_star {
                            assert forall|weight: spec_fn((EdgeListId, EdgeId)) -> int, w: Seq<(EdgeListId, EdgeId)>|
                                #![trigger adds_edge_costs(*si, weight), open_walk(si.graph, si.constraint_models@, *direction, source, w, t)]
                                adds_edge_costs(*si, weight) && nonneg_weights(weight) && keys_by_vertex(*si)
                                && state_cost(si.cost_model.weights@, si.state_model.initial_values@) == 0
                                && open_walk(si.graph, si.constraint_models@, *direction, source, w, t)
                                implies solution@.nodes.contains_key(Label::Vertex(t))
                                    && recorded_cost(solution@, Label::Vertex(t)) <= walk_weight(weight, w) by {
                                assert(si.label_model.label_answer(source, initial_state@, si.state_model, Ok::<Label, LabelModelError>(initial_label)));
                                assert(initial_label == Label::Vertex(source));
                                assert forall|k: Label| #[trigger] traversal_costs@.contains_key(k) implies before.contains_key(k)
                                    || label_bounded(*si, *direction, solution@, k, initial_state@, traversal_costs@) by {
                                }
                                lemma_walk_frontier(*si, *direction, solution@, traversal_costs@, before, initial_state@, weight, source, w, t);
                                let (k, p) = choose|k: Label, p: Seq<(EdgeListId, EdgeId)>|
                                    #![trigger traversal_costs@.contains_key(k), open_walk(si.graph, si.constraint_models@, *direction, k.vertex(), p, t)]
                                    traversal_costs@.contains_key(k) && (before.contains_key(k) || k == Label::Vertex(t))
                                    && open_walk(si.graph, si.constraint_models@, *direction, k.vertex(), p, t)
                                    && traversal_costs@[k].0 + walk_weight(weight, p) <= traversal_costs@[Label::Vertex(source)].0 + walk_weight(weight, w);
                                lemma_walk_weight_nonneg(weight, p);
                                assert(traversal_costs@.contains_key(l));
                                assert(l == Label::Vertex(t));
                                if before.contains_key(k) {
                                    assert(before[l].0 <= before[k].0);
                                }
                                assert(traversal_costs@[l].0 == recorded_cost(solution@, l));
                            }
                        } else {
                            assert forall|weight: spec_fn((EdgeListId, EdgeId)) -> int, h: spec_fn(VertexId) -> int, w: Seq<(EdgeListId, EdgeId)>|
                                #![trigger adds_edge_costs(*si, weight), estimates_add(*si, t, h), open_walk(si.graph, si.constraint_models@, *direction, source, w, t)]
                                adds_edge_costs(*si, weight) && nonneg_weights(weight) && keys_by_vertex(*si)
                                && estimates_add(*si, t, h) && admissible(si.graph, si.constraint_models@, *direction, t, weight, h)
                                && state_cost(si.cost_model.weights@, si.state_model.initial_values@) == 0
                                && open_walk(si.graph, si.constraint_models@, *direction, source, w, t)
                                && 2 * walk_weight(weight, w) < i64::MAX
                                implies solution@.nodes.contains_key(Label::Vertex(t))
                                    && recorded_cost(solution@, Label::Vertex(t)) <= walk_weight(weight, w) by {
                                assert(si.label_model.label_answer(source, initial_state@, si.state_model, Ok::<Label, LabelModelError>(initial_label)));
                                assert(initial_label == Label::Vertex(source));
                                assert forall|k: Label| #[trigger] traversal_costs@.contains_key(k) implies before.contains_key(k)
                                    || label_bounded(*si, *direction, solution@, k, initial_state@, traversal_costs@) by {
                                }
                                lemma_walk_frontier(*si, *direction, solution@, traversal_costs@, before, initial_state@, weight, source, w, t);
                                let (k, p) = choose|k: Label, p: Seq<(EdgeListId, EdgeId)>|
                                    #![trigger traversal_costs@.contains_key(k), open_walk(si.graph, si.constraint_models@, *direction, k.vertex(), p, t)]
                                    traversal_costs@.contains_key(k) && (before.contains_key(k) || k == Label::Vertex(t))
                                    && open_walk(si.graph, si.constraint_models@, *direction, k.vertex(), p, t)
                                    && traversal_costs@[k].0 + walk_weight(weight, p) <= traversal_costs@[Label::Vertex(source)].0 + walk_weight(weight, w);
                                lemma_walk_weight_nonneg(weight, p);
                                lemma_walk_weight_nonneg(weight, w);
                                assert(traversal_costs@.contains_key(l));
                                assert(l == Label::Vertex(t));
                                assert(at_estimated_priority(before, traversal_costs@, h));
                                assert(h(t) >= 0);
                                if before.contains_key(k) {
                                    assert(before[l].0 <= before[k].0);
                                    assert(h(k.vertex()) <= walk_weight(weight, p));
                                    assert(before[k].0 == clamp(2 * traversal_costs@[k].0 + h(k.vertex())));
                                    assert(before[l].0 == clamp(2 * traversal_costs@[l].0 + h(l.vertex())));
                                }
                                assert(traversal_costs@[l].0 == recorded_cost(solution@, l));
                            }
                        }
                    }
                    assert forall|k: Label| #[trigger] frontier@.contains_key(k) implies
                        solution@.nodes.contains_key(k) || k == initial_label by {
                        assert(before.contains_key(k));
                    }
                    if target is None {
                        assert(before.len() == 0);
                        assert forall|k: Label| #[trigger] traversal_costs@.contains_key(k)
                            implies label_closed(si.graph, si.constraint_models@, *direction, target, k, traversal_costs@)
                                && label_bounded(*si, *direction, solution@, k, initial_state@, traversal_costs@) by {
                            assert(!before.contains_key(k));
                        }
                    }
                }
                break;
            },
            Ok(Some(f)) => f,
        };
        proof {
            let l = choose|l: Label| #[trigger] is_cheapest(before, l)
                && frontier@ == before.remove(l)
                && if target == Some(l.vertex()) {
                    popped == Ok::<Option<FrontierInstance>, SearchError>(None)
                } else {
                    popped matches Ok(Some(fi)) && frontier_for(fi, l, solution@, initial_state@)
                };
            assert(f.prev_label == l);
            assert(before.contains_key(l));
            assert(target != Some(l.vertex()));
            assert forall|k: Label| #[trigger] traversal_costs@.contains_key(k) implies frontier@.contains_key(k)
                || (label_closed(si.graph, si.constraint_models@, *direction, target, k, traversal_costs@)
                    && label_bounded(*si, *direction, solution@, k, initial_state@, traversal_costs@)) || k == f.prev_label by {
                if k != l && before.contains_key(k) {
                    assert(frontier@.contains_key(k));
                }
            }
            assert(f.prev_state@ == label_state(solution@, f.prev_label, initial_state@));
            if a_star {
                if let Some(t) = target {
                    assert forall|h: spec_fn(VertexId) -> int| #[trigger] estimates_add(*si, t, h)
                        && state_cost(si.cost_model.weights@, si.state_model.initial_values@) == 0
                        implies at_estimated_priority(frontier@, traversal_costs@, h) by {
                        assert(at_estimated_priority(before, traversal_costs@, h));
                        assert forall|k: Label| #[trigger] frontier@.contains_key(k) implies traversal_costs@.contains_key(k)
                            && frontier@[k].0 == clamp(2 * traversal_costs@[k].0 + h(k.vertex())) by {
                            assert(before.contains_key(k));
                        }
                    }
                }
            }
            assert forall|k: Label| #[trigger] frontier@.contains_key(k) implies
                solution@.nodes.contains_key(k) || k == initial_label by {
                assert(before.contains_key(k));
            }
        }
        let edges = direction.get_incident_edges(f.prev_label.vertex_id(), &si.graph);
        let ghost pv = f.prev_label.vertex();
        let ghost entries = direction.incident_entries(si.graph, pv);
        let mut j: usize = 0;
        while j < edges.len()
            invariant
                search_state_ok(solution@, frontier@, si.graph, si.cost_model, si.constraint_models@, *direction, source, initial_label),
                target != Some(source),
                a_star && target is Some ==> si.estimation_index() < si.traversal_models@.len(),
                edges@ == entry_edges(entries),
                entries == direction.incident_entries(si.graph, pv),
                pv == f.prev_label.vertex(),
                solution@.nodes.len() == 0 ==> f.prev_label == initial_label,
                0 <= j <= edges@.len(),
                traversal_costs@.contains_key(initial_label),
                traversal_costs@.contains_key(f.prev_label),
                target != Some(pv),
                forall|k: Label| #[trigger] frontier@.contains_key(k) ==> traversal_costs@.contains_key(k),
                forall|k: Label| #[trigger] traversal_costs@.contains_key(k) ==> k == initial_label || solution@.nodes.contains_key(k),
                forall|k: Label| #[trigger] traversal_costs@.contains_key(k) ==> frontier@.contains_key(k)
                    || (label_closed(si.graph, si.constraint_models@, *direction, target, k, traversal_costs@)
                        && label_bounded(*si, *direction, solution@, k, initial_state@, traversal_costs@)) || k == f.prev_label,
                forall|i: int| 0 <= i < j ==> #[trigger] entry_settled(si.graph, si.constraint_models@, *direction, pv, i, traversal_costs@),
                forall|i: int| 0 <= i < j ==> #[trigger] entry_bounded(*si, *direction, pv, i, f.prev_state@, traversal_costs@),
                frontier@.contains_key(f.prev_label) || label_state(solution@, f.prev_label, initial_state@) == f.prev_state@,
                costs_recorded(traversal_costs@, solution@),
                traversal_costs@[initial_label].0 <= 0,
                keys_by_vertex(*si) ==> forall|k: Label| #[trigger] traversal_costs@.contains_key(k) ==> k == Label::Vertex(k.vertex()),
                keys_by_vertex(*si) ==> vertex_keyed(solution@),
                !a_star || target is None ==> forall|k: Label| #[trigger] frontier@.contains_key(k)
                    ==> traversal_costs@.contains_key(k) && frontier@[k] == traversal_costs@[k],
                a_star ==> (target matches Some(t) ==> forall|h: spec_fn(VertexId) -> int| #[trigger] estimates_add(*si, t, h)
                    && state_cost(si.cost_model.weights@, si.state_model.initial_values@) == 0
                    ==> at_estimated_priority(frontier@, traversal_costs@, h)),
            decreases edges@.len() - j,
        {
            let edge = edges[j];
            proof {
                if si.graph.wf() {
                    assert(edge == (entries[j as int].0, entries[j as int].1));
                    match *direction {
                        Direction::Forward => {
                            if pv.0 < si.graph.adj@.len() {
                                assert(entries[j as int] == si.graph.adj@[pv.0 as int]@[j as int]);
                            }
                        },
                        Direction::Reverse => {
                            if pv.0 < si.graph.rev@.len() {
                                assert(entries[j as int] == si.graph.rev@[pv.0 as int]@[j as int]);
                            }
                        },
                    }
                }
            }
            let ghost c0 = traversal_costs@;
            let ghost fr0 = frontier@;
            let ghost t0 = solution@;
            match relax_edge(edge, &f, &mut frontier, &mut traversal_costs, &mut solution, source, target,
                *direction, a_star, initial_label, si) {
                Ok(()) => {},
                Err(e) => return Err(e),
            }
            proof {
                assert(edge == entry_ids(entries[j as int]));
                lemma_relax_keeps_bounds(*si, a_star, target, edge, f, *direction, t0, solution@, c0, traversal_costs@,
                    fr0, frontier@, initial_state@);
                if a_star {
                    if let Some(t) = target {
                        assert forall|h: spec_fn(VertexId) -> int| #[trigger] estimates_add(*si, t, h)
                            && state_cost(si.cost_model.weights@, si.state_model.initial_values@) == 0
                            implies at_estimated_priority(frontier@, traversal_costs@, h) by {
                            lemma_relax_estimated(*si, t, edge, f, *direction, t0, solution@, c0, traversal_costs@, fr0, frontier@, h);
                        }
                    }
                }
                assert forall|k: Label| #[trigger] traversal_costs@.contains_key(k) implies frontier@.contains_key(k)
                    || (label_closed(si.graph, si.constraint_models@, *direction, target, k, traversal_costs@)
                        && label_bounded(*si, *direction, solution@, k, initial_state@, traversal_costs@)) || k == f.prev_label by {
                    if c0.contains_key(k) {
                        if fr0.contains_key(k) {
                        } else if k != f.prev_label && !frontier@.contains_key(k) {
                            lemma_closed_grows(si.graph, si.constraint_models@, *direction, target, k, c0, traversal_costs@);
                            lemma_bounded_grows(*si, *direction, t0, solution@, k, initial_state@, c0, traversal_costs@);
                        }
                    }
                }
                assert forall|i: int| 0 <= i < j + 1 implies #[trigger] entry_bounded(*si, *direction, pv, i, f.prev_state@, traversal_costs@) by {
                    if i < j {
                        assert(entry_bounded(*si, *direction, pv, i, f.prev_state@, c0));
                        lemma_edge_bounded_grows(*si, *direction, entry_ids(entries[i]), f.prev_state@, c0, traversal_costs@);
                    }
                }
                if !frontier@.contains_key(f.prev_label) {
                    assert(traversal_costs@.contains_key(f.prev_label));
                    assert(!fr0.contains_key(f.prev_label));
                }
                assert forall|i: int| 0 <= i < j + 1 implies #[trigger] entry_settled(si.graph, si.constraint_models@, *direction, pv, i, traversal_costs@) by {
                    if i < j {
                        assert(entry_settled(si.graph, si.constraint_models@, *direction, pv, i, c0));
                        lemma_settled_grows(si.graph, si.constraint_models@, *direction, entry_ids(entries[i]), c0, traversal_costs@);
                    }
                }
            }
            j = j + 1;
        }
        proof {
            assert(label_closed(si.graph, si.constraint_models@, *direction, target, f.prev_label, traversal_costs@));
            if !frontier@.contains_key(f.prev_label) {
                assert forall|i: int| 0 <= i < direction.incident_entries(si.graph, f.prev_label.vertex()).len()
                    implies #[trigger] entry_bounded(*si, *direction, f.prev_label.vertex(), i,
                        label_state(solution@, f.prev_label, initial_state@), traversal_costs@) by {
                    assert(entry_bounded(*si, *direction, pv, i, f.prev_state@, traversal_costs@));
                }
                assert(label_bounded(*si, *direction, solution@, f.prev_label, initial_state@, traversal_costs@));
            }
        }
        iterations = iterations + 1;
    }
    proof {
        if target is None {
            assert forall|weight: spec_fn((EdgeListId, EdgeId)) -> int, v: VertexId, w: Seq<(EdgeListId, EdgeId)>|
                #![trigger adds_edge_costs(*si, weight), open_walk(si.graph, si.constraint_models@, *direction, source, w, v)]
                adds_edge_costs(*si, weight) && keys_by_vertex(*si)
                && state_cost(si.cost_model.weights@, si.state_model.initial_values@) == 0
                && open_walk(si.graph, si.constraint_models@, *direction, source, w, v)
                implies (v == source || solution@.nodes.contains_key(Label::Vertex(v)))
                    && recorded_cost(solution@, Label::Vertex(v)) <= walk_weight(weight, w) by {
                assert(si.label_model.label_answer(source, initial_state@, si.state_model, Ok::<Label, LabelModelError>(initial_label)));
                assert(initial_label == Label::Vertex(source));
                lemma_walk_bound(*si, *direction, solution@, traversal_costs@, initial_state@, weight, source, w, v);
                if Label::Vertex(v) != initial_label {
                    assert(solution@.nodes.contains_key(Label::Vertex(v)));
                }
            }
            lemma_open_reached(si.graph, si.constraint_models@, *direction, target, traversal_costs@, initial_label, source);
            assert forall|v: VertexId| #[trigger] reaches_open(si.graph, si.constraint_models@, *direction, source, v)
                implies v == source || has_vertex(solution@, v) by {
                let k = choose|k: Label| #[trigger] traversal_costs@.contains_key(k) && k.vertex() == v;
                if k != initial_label {
                    assert(solution@.nodes.contains_key(k));
                }
            }
        }
    }
    Ok(SearchResult::completed(solution, iterations))
}

/// Runs a vertex-oriented search between edges: from the destination vertex of the
/// `source` edge toward the source vertex of the `target` edge. Searching from an edge
/// to itself gives an empty result at once.
pub fn run_edge_oriented<T: TraversalModel, C: ConstraintModel, L: LabelModel>(
    source: (EdgeListId, EdgeId),
    target: Option<(EdgeListId, EdgeId)>,
    direction: &Direction,
    a_star: bool,
    si: &SearchInstance<T, C, L>,
) -> (r: Result<SearchResult, SearchError>)
    requires
        a_star && target is Some && target != Some(source) ==> si.estimation_index() < si.traversal_models@.len(),
    ensures
        match si.graph.edge_at(source.0, source.1) {
            None => r == Err::<SearchResult, SearchError>(SearchError::NetworkFailure {
                source: si.graph.edge_error(source.0, source.1) }),
            Some(e1) => match target {
                None => vertex_search_result(r, e1.dst_vertex_id, None, *direction, si.graph, si.cost_model, si.constraint_models@),
                Some(te) => match si.graph.edge_at(te.0, te.1) {
                    None => r == Err::<SearchResult, SearchError>(SearchError::NetworkFailure {
                        source: si.graph.edge_error(te.0, te.1) }),
                    Some(e2) => if source == te {
                        r matches Ok(res) && res.tree@ == empty_tree(Direction::Forward)
                            && res.iterations == 0 && res.terminated is None
                    } else {
                        vertex_search_result(r, e1.dst_vertex_id, Some(e2.src_vertex_id), *direction, si.graph, si.cost_model, si.constraint_models@)
                    },
                },
            },
        },
        r matches Err(SearchError::NoPathExistsBetweenVertices(s, t, _)) ==> !reaches_open(si.graph, si.constraint_models@, *direction, s, t),
        r matches Ok(res) ==> (res.terminated is Some ==> stops(si.termination_model, res.tree@.nodes.len(), res.iterations)
            || res.iterations == u64::MAX),
        target is None ==> (r matches Ok(res) ==> (res.terminated is None ==> (si.graph.edge_at(source.0, source.1) matches Some(e1)
            && forall|v: VertexId| #[trigger] reaches_open(si.graph, si.constraint_models@, *direction, e1.dst_vertex_id, v)
                ==> v == e1.dst_vertex_id || has_vertex(res.tree@, v)))),
        target is None ==> (r matches Ok(res) ==> (res.terminated is None ==> (si.graph.edge_at(source.0, source.1) matches Some(e1)
            && least_costs(res.tree@, *si, *direction, e1.dst_vertex_id)))),
        !a_star ==> (target matches Some(te) ==> (te != source ==> (r matches Ok(res) ==> (res.terminated is None
            ==> (si.graph.edge_at(source.0, source.1) matches Some(e1) && si.graph.edge_at(te.0, te.1) matches Some(e2)
                && (e2.src_vertex_id != e1.dst_vertex_id ==> least_cost_to(res.tree@, *si, *direction, e1.dst_vertex_id, e2.src_vertex_id))))))),
        a_star ==> (target matches Some(te) ==> (te != source ==> (r matches Ok(res) ==> (res.terminated is None
            ==> (si.graph.edge_at(source.0, source.1) matches Some(e1) && si.graph.edge_at(te.0, te.1) matches Some(e2)
                && (e2.src_vertex_id != e1.dst_vertex_id ==> least_cost_estimated(res.tree@, *si, *direction, e1.dst_vertex_id, e2.src_vertex_id))))))),
{
    let e1_dst = match si.graph.dst_vertex_id(&source.0, &source.1) {
        Ok(v) => v,
        Err(e) => return Err(SearchError::NetworkFailure { source: e }),
    };
    match target {
        None => run_vertex_oriented(e1_dst, None, direction, a_star, si),
        Some(target_edge) => {
            let e2_src = match si.graph.src_vertex_id(&target_edge.0, &target_edge.1) {
                Ok(v) => v,
                Err(e) => return Err(SearchError::NetworkFailure { source: e }),
            };
            if source.0.0 == target_edge.0.0 && source.1.0 == target_edge.1.0 {
                Ok(SearchResult::default())
            } else {
                run_vertex_oriented(e1_dst, Some(e2_src), direction, a_star, si)
            }
        },
    }
}

} // verus!
