use vstd::prelude::*;
use vstd::string::StringExecFns;
use crate::cost::Cost;
use crate::label::Label;
use crate::model::constraint::ConstraintModel;
use crate::model::label_model::LabelModel;
use crate::model::traversal::TraversalModel;
use crate::network::{Graph, VertexId};
use crate::priority_queue::InternalPriorityQueue;
use crate::search::a_star::a_star_algorithm::{add_costs, clamped_sum};
use crate::search::a_star::a_star_ops::{first_missing_edge, route_contains_loop, route_sources};
use crate::search::direction::Direction;
use crate::search::edge_traversal::EdgeTraversal;
use crate::search::ksp::ksp_query::KspQuery;
use crate::search::ksp::ksp_termination_criteria::{terminates, KspTerminationCriteria};
use crate::search::search_algorithm::{uses_a_star, SearchAlgorithm};
use crate::search::search_error::SearchError;
use crate::search::search_instance::SearchInstance;
use crate::search::search_result::SearchAlgorithmResult;
use crate::search::search_tree::{backtrack_matches, SearchTree, SearchTreeError, SearchTreeView};
use crate::search::search_tree_node::{SearchTreeNode, SearchTreeNodeView};
use crate::search::util::route_similarity_function::RouteSimilarity;

verus! {

/// Whether two routes traverse the same edge ids in the same order.
pub open spec fn same_edge_ids(a: Seq<EdgeTraversal>, b: Seq<EdgeTraversal>) -> bool {
    &&& a.len() == b.len()
    &&& forall|i: int| 0 <= i < a.len() ==> (#[trigger] a[i]).edge_id == b[i].edge_id
}

/// Whether `l` is reached through an edge in both trees: a place where a forward and a
/// reverse search meet.
pub open spec fn meeting_label(fwd: SearchTreeView, rev: SearchTreeView, l: Label) -> bool {
    &&& fwd.nodes.contains_key(l)
    &&& fwd.nodes[l] is Branch
    &&& rev.nodes.contains_key(l)
    &&& rev.nodes[l] is Branch
}

/// Whether the trees meet at vertex `v`.
pub open spec fn meeting_vertex(fwd: SearchTreeView, rev: SearchTreeView, v: VertexId) -> bool {
    exists|l: Label| #[trigger] meeting_label(fwd, rev, l) && l.vertex() == v
}

/// Whether `route` goes through vertex `v` of both trees: the forward tree's path to `v`
/// followed by the reverse tree's path from `v`.
pub open spec fn via_route(fwd: SearchTreeView, rev: SearchTreeView, route: Seq<EdgeTraversal>) -> bool {
    exists|v: VertexId, p1: Vec<EdgeTraversal>, p2: Vec<EdgeTraversal>|
        #![trigger backtrack_matches(fwd, v, Ok::<Vec<EdgeTraversal>, SearchTreeError>(p1)), backtrack_matches(rev, v, Ok::<Vec<EdgeTraversal>, SearchTreeError>(p2))]
        meeting_vertex(fwd, rev, v)
        && backtrack_matches(fwd, v, Ok::<Vec<EdgeTraversal>, SearchTreeError>(p1))
        && backtrack_matches(rev, v, Ok::<Vec<EdgeTraversal>, SearchTreeError>(p2))
        && route == p1@ + p2@
}

/// What the single-via-paths search between `source` and `target` gives: the forward and
/// the reverse tree; routes of which the first, if any, is the forward tree's shortest
/// path to the target and every other one goes through a meeting vertex of the trees and
/// has no loop; and no two routes with the same edge ids.
pub open spec fn svp_outcome(res: SearchAlgorithmResult, source: VertexId, target: VertexId, g: Graph) -> bool {
    &&& res.trees@.len() == 2
    &&& (res.routes@.len() > 0 ==> backtrack_matches(res.trees@[0]@, target, Ok::<Vec<EdgeTraversal>, SearchTreeError>(res.routes@[0])))
    &&& forall|i: int, j: int| 0 <= i < j < res.routes@.len() ==> !same_edge_ids(#[trigger] res.routes@[i]@, #[trigger] res.routes@[j]@)
    &&& forall|i: int| 1 <= i < res.routes@.len() ==> {
        &&& first_missing_edge(g, (#[trigger] res.routes@[i])@) is None
        &&& route_sources(g, res.routes@[i]@).no_duplicates()
        &&& via_route(res.trees@[0]@, res.trees@[1]@, res.routes@[i]@)
    }
}

/// Whether two routes traverse the same edge ids in the same order.
pub fn test_id_similarity(a: &Vec<EdgeTraversal>, b: &Vec<EdgeTraversal>) -> (r: bool)
    ensures
        r == same_edge_ids(a@, b@),
{
    if a.len() != b.len() {
        return false;
    }
    let mut i: usize = 0;
    while i < a.len()
        invariant
            a@.len() == b@.len(),
            0 <= i <= a@.len(),
            forall|j: int| 0 <= j < i ==> (#[trigger] a@[j]).edge_id == b@[j].edge_id,
        decreases a@.len() - i,
    {
        if a[i].edge_id.0 != b[i].edge_id.0 {
            return false;
        }
        i = i + 1;
    }
    true
}

/// The vertices where the two trees meet, each ranked by the summed total costs of the
/// incoming edges of a meeting label there.
pub fn find_intersections(fwd_tree: &SearchTree, rev_tree: &SearchTree) -> (q: InternalPriorityQueue<VertexId>)
    ensures
        forall|v: VertexId| #[trigger] q@.contains_key(v) <==> meeting_vertex(fwd_tree@, rev_tree@, v),
        forall|v: VertexId| #[trigger] q@.contains_key(v) ==> exists|l: Label| #[trigger] meeting_label(fwd_tree@, rev_tree@, l)
            && l.vertex() == v
            && q@[v].0 == clamped_sum(fwd_tree@.nodes[l]->Branch_incoming_edge.cost.total_cost,
                rev_tree@.nodes[l]->Branch_incoming_edge.cost.total_cost),
{
    let entries = fwd_tree.iter();
    let mut q: InternalPriorityQueue<VertexId> = InternalPriorityQueue::new();
    let mut i: usize = 0;
    while i < entries.len()
        invariant
            0 <= i <= entries@.len(),
            entries@.len() == fwd_tree@.nodes.len(),
            forall|a: int| 0 <= a < entries@.len() ==> (#[trigger] entries@[a]).1@.label() == *entries@[a].0
                && fwd_tree@.nodes.contains_key(*entries@[a].0) && fwd_tree@.nodes[*entries@[a].0] == entries@[a].1@,
            forall|v: VertexId| #[trigger] q@.contains_key(v) ==> meeting_vertex(fwd_tree@, rev_tree@, v),
            forall|a: int| 0 <= a < i && meeting_label(fwd_tree@, rev_tree@, *(#[trigger] entries@[a]).0)
                ==> q@.contains_key(entries@[a].0.vertex()),
            forall|v: VertexId| #[trigger] q@.contains_key(v) ==> exists|l: Label| #[trigger] meeting_label(fwd_tree@, rev_tree@, l)
                && l.vertex() == v
                && q@[v].0 == clamped_sum(fwd_tree@.nodes[l]->Branch_incoming_edge.cost.total_cost,
                    rev_tree@.nodes[l]->Branch_incoming_edge.cost.total_cost),
        decreases entries@.len() - i,
    {
        let (label, fwd_branch) = entries[i];
        if let Some(fwd_et) = fwd_branch.incoming_edge() {
            if let Some(SearchTreeNode::Branch { incoming_edge, .. }) = rev_tree.get(fwd_branch.label()) {
                if rev_tree.contains(label) {
                    let ghost l = *label;
                    let total = add_costs(fwd_et.cost.total_cost, incoming_edge.cost.total_cost);
                    proof {
                        assert(meeting_label(fwd_tree@, rev_tree@, l));
                    }
                    q.push(*label.vertex_id(), total);
                    proof {
                        assert forall|v: VertexId| #[trigger] q@.contains_key(v) implies meeting_vertex(fwd_tree@, rev_tree@, v) by {
                            if v == l.vertex() {
                                assert(meeting_label(fwd_tree@, rev_tree@, l));
                            }
                        }
                        assert forall|v: VertexId| #[trigger] q@.contains_key(v) implies exists|l2: Label| #[trigger] meeting_label(fwd_tree@, rev_tree@, l2)
                            && l2.vertex() == v
                            && q@[v].0 == clamped_sum(fwd_tree@.nodes[l2]->Branch_incoming_edge.cost.total_cost,
                                rev_tree@.nodes[l2]->Branch_incoming_edge.cost.total_cost) by {
                            if v == l.vertex() {
                                assert(meeting_label(fwd_tree@, rev_tree@, l));
                            }
                        }
                    }
                }
            }
        }
        proof {
            assert forall|a: int| 0 <= a < i + 1 && meeting_label(fwd_tree@, rev_tree@, *(#[trigger] entries@[a]).0)
                implies q@.contains_key(entries@[a].0.vertex()) by {
                if a == i {
                    let l = *entries@[a].0;
                    assert(fwd_tree@.nodes[l] == entries@[a].1@);
                }
            }
        }
        i = i + 1;
    }
    proof {
        assert forall|v: VertexId| meeting_vertex(fwd_tree@, rev_tree@, v) implies #[trigger] q@.contains_key(v) by {
            let l = choose|l: Label| #[trigger] meeting_label(fwd_tree@, rev_tree@, l) && l.vertex() == v;
            assert(fwd_tree@.nodes.contains_key(l));
            let a = choose_entry(entries@, fwd_tree@, l);
            assert(*entries@[a].0 == l);
        }
    }
    q
}

proof fn choose_entry(entries: Seq<(&Label, &SearchTreeNode)>, t: SearchTreeView, l: Label) -> (a: int)
    requires
        t.nodes.contains_key(l),
        entries.len() == t.nodes.len(),
        forall|a: int, b: int| 0 <= a < b < entries.len() ==> (#[trigger] entries[a]).0 != (#[trigger] entries[b]).0,
        forall|a: int| 0 <= a < entries.len() ==> t.nodes.contains_key(*(#[trigger] entries[a]).0),
        t.nodes.dom().finite(),
    ensures
        0 <= a < entries.len(),
        *entries[a].0 == l,
{
    let labels = entries.map_values(|e: (&Label, &SearchTreeNode)| *e.0);
    assert(labels.no_duplicates()) by {
        assert forall|a: int, b: int| 0 <= a < labels.len() && 0 <= b < labels.len() && a != b implies labels[a] != labels[b] by {
            if a < b {
                assert(entries[a].0 != entries[b].0);
            } else {
                assert(entries[b].0 != entries[a].0);
            }
        }
    }
    labels.unique_seq_to_set();
    assert(labels.to_set().subset_of(t.nodes.dom())) by {
        assert forall|x: Label| labels.to_set().contains(x) implies t.nodes.dom().contains(x) by {
            let a = choose|a: int| 0 <= a < labels.len() && labels[a] == x;
            assert(t.nodes.contains_key(*entries[a].0));
        }
    }
    if !labels.contains(l) {
        assert(labels.to_set().subset_of(t.nodes.dom().remove(l)));
        vstd::set_lib::lemma_len_subset(labels.to_set(), t.nodes.dom().remove(l));
        assert(false);
    }
    let a = choose|a: int| 0 <= a < labels.len() && labels[a] == l;
    a
}

/// The explanation of an early termination of either search of the single-via-paths algorithm.
fn termination_message(fwd: Option<String>, rev: Option<String>) -> (r: Option<String>)
    ensures
        r is None <==> (fwd is None && rev is None),
{
    match (fwd, rev) {
        (None, None) => None,
        (None, Some(rev)) => Some("SVP reverse search terminated: ".to_owned().concat(rev.as_str())),
        (Some(fwd), None) => Some("SVP forward search terminated: ".to_owned().concat(fwd.as_str())),
        (Some(fwd), Some(rev)) => Some(
            "SVP forward and reverse searches terminated. FWD: ".to_owned().concat(fwd.as_str()).concat(". REV: ").concat(rev.as_str()),
        ),
    }
}

/// Generates up to k alternative routes with the single-via-paths algorithm: a forward
/// search from the source and a reverse search from the target meet at via vertices;
/// the route through each via vertex, cheapest first, is accepted unless it has a loop
/// or is similar to a route already accepted. The shortest path comes first.
pub fn run<T: TraversalModel + Clone, C: ConstraintModel + Clone, L: LabelModel + Clone, S: RouteSimilarity + Clone + Default>(
    query: &KspQuery,
    termination: &KspTerminationCriteria,
    similarity: &S,
    si: &SearchInstance<T, C, L>,
    underlying: &SearchAlgorithm<S>,
) -> (r: Result<SearchAlgorithmResult, SearchError>)
    requires
        uses_a_star(*underlying) ==> si.estimation_index() < si.traversal_models@.len(),
    ensures
        r matches Ok(res) ==> svp_outcome(res, query.source, query.target, si.graph) && res.routes@.len() <= query.k,
        query.k >= 1 ==> (r matches Ok(res) ==> res.routes@.len() >= 1),
        r matches Ok(res) ==> svp_filtered(res.routes@, *similarity, si.graph),
        r matches Ok(res) ==> svp_complete(res, query.k, *termination, *similarity, si.graph),
        query.source == query.target && *underlying is SingleSourceShortestPath ==> r == Err::<SearchAlgorithmResult, SearchError>(
            SearchError::SearchTreeFailure { source: SearchTreeError::VertexNotFound(query.source) }),
    decreases *underlying, 1int,
{
    let fwd = match underlying.run_vertex_oriented(query.source, Some(query.target), query.user_query, &Direction::Forward, si) {
        Ok(res) => res,
        Err(e) => return Err(e),
    };
    let rev = match underlying.run_vertex_oriented(query.target, Some(query.source), query.user_query, &Direction::Reverse, si) {
        Ok(res) => res,
        Err(e) => return Err(e),
    };
    svp_routes(fwd, rev, query, termination, similarity, si)
}

/// Whether the route `q` may be left out of `routes`: it has a loop, it has the edge ids of
/// one of `routes`, or `similarity` may find it similar to one of them.
pub open spec fn svp_may_reject<S: RouteSimilarity>(q: Seq<EdgeTraversal>, routes: Seq<Vec<EdgeTraversal>>, similarity: S, g: Graph) -> bool {
    ||| !route_sources(g, q).no_duplicates()
    ||| exists|j: int| 0 <= j < routes.len() && #[trigger] same_edge_ids(q, routes[j]@)
    ||| exists|j: int| 0 <= j < routes.len()
        && #[trigger] similarity.similarity_answer(q, routes[j]@, g, Ok::<bool, SearchError>(true))
}

/// Whether vertex `v` is dealt with in `routes`: a route through `v` (the forward tree's
/// path to `v`, then the reverse tree's path from `v`) is one of `routes`, or may be left
/// out of them.
pub open spec fn svp_considered<S: RouteSimilarity>(fwd: SearchTreeView, rev: SearchTreeView, v: VertexId,
    routes: Seq<Vec<EdgeTraversal>>, similarity: S, g: Graph) -> bool {
    exists|p1: Vec<EdgeTraversal>, p2: Vec<EdgeTraversal>|
        #![trigger backtrack_matches(fwd, v, Ok::<Vec<EdgeTraversal>, SearchTreeError>(p1)), backtrack_matches(rev, v, Ok::<Vec<EdgeTraversal>, SearchTreeError>(p2))]
        backtrack_matches(fwd, v, Ok::<Vec<EdgeTraversal>, SearchTreeError>(p1))
        && backtrack_matches(rev, v, Ok::<Vec<EdgeTraversal>, SearchTreeError>(p2))
        && ((exists|i: int| 0 <= i < routes.len() && #[trigger] routes[i]@ == p1@ + p2@)
            || svp_may_reject(p1@ + p2@, routes, similarity, g))
}

/// Whether the routes of a single-via-paths result are complete: when they are fewer than
/// `k` and the termination criteria do not hold for their number, every vertex where the
/// forward and the reverse tree meet is dealt with in them.
pub open spec fn svp_complete<S: RouteSimilarity>(res: SearchAlgorithmResult, k: usize, termination: KspTerminationCriteria,
    similarity: S, g: Graph) -> bool {
    res.routes@.len() < k && !terminates(termination, k, res.routes@.len() as usize)
        ==> forall|v: VertexId| #[trigger] meeting_vertex(res.trees@[0]@, res.trees@[1]@, v)
            ==> svp_considered(res.trees@[0]@, res.trees@[1]@, v, res.routes@, similarity, g)
}

/// A single-via-paths result whose similarity function never finds two routes similar,
/// and that stopped short of `k` routes and of its termination criteria, holds, for every
/// vertex where its trees meet, a route through that vertex, unless that route has a loop
/// or the edge ids of one of its routes.
pub proof fn law_svp_keeps_dissimilar_routes<S: RouteSimilarity>(res: SearchAlgorithmResult, k: usize,
    termination: KspTerminationCriteria, similarity: S, g: Graph, v: VertexId)
    requires
        svp_complete(res, k, termination, similarity, g),
        forall|a: Seq<EdgeTraversal>, b: Seq<EdgeTraversal>| !#[trigger] similarity.similarity_answer(a, b, g, Ok::<bool, SearchError>(true)),
        res.routes@.len() < k,
        !terminates(termination, k, res.routes@.len() as usize),
        meeting_vertex(res.trees@[0]@, res.trees@[1]@, v),
    ensures
        exists|p1: Vec<EdgeTraversal>, p2: Vec<EdgeTraversal>|
            #![trigger backtrack_matches(res.trees@[0]@, v, Ok::<Vec<EdgeTraversal>, SearchTreeError>(p1)), backtrack_matches(res.trees@[1]@, v, Ok::<Vec<EdgeTraversal>, SearchTreeError>(p2))]
            backtrack_matches(res.trees@[0]@, v, Ok::<Vec<EdgeTraversal>, SearchTreeError>(p1))
            && backtrack_matches(res.trees@[1]@, v, Ok::<Vec<EdgeTraversal>, SearchTreeError>(p2))
            && ((exists|i: int| 0 <= i < res.routes@.len() && #[trigger] res.routes@[i]@ == p1@ + p2@)
                || !route_sources(g, p1@ + p2@).no_duplicates()
                || exists|j: int| 0 <= j < res.routes@.len() && #[trigger] same_edge_ids(p1@ + p2@, res.routes@[j]@)),
{
    assert(svp_considered(res.trees@[0]@, res.trees@[1]@, v, res.routes@, similarity, g));
    let (p1, p2) = choose|p1: Vec<EdgeTraversal>, p2: Vec<EdgeTraversal>|
        #![trigger backtrack_matches(res.trees@[0]@, v, Ok::<Vec<EdgeTraversal>, SearchTreeError>(p1)), backtrack_matches(res.trees@[1]@, v, Ok::<Vec<EdgeTraversal>, SearchTreeError>(p2))]
        backtrack_matches(res.trees@[0]@, v, Ok::<Vec<EdgeTraversal>, SearchTreeError>(p1))
        && backtrack_matches(res.trees@[1]@, v, Ok::<Vec<EdgeTraversal>, SearchTreeError>(p2))
        && ((exists|i: int| 0 <= i < res.routes@.len() && #[trigger] res.routes@[i]@ == p1@ + p2@)
            || svp_may_reject(p1@ + p2@, res.routes@, similarity, g));
    if exists|j: int| 0 <= j < res.routes@.len()
        && #[trigger] similarity.similarity_answer(p1@ + p2@, res.routes@[j]@, g, Ok::<bool, SearchError>(true)) {
        let j = choose|j: int| 0 <= j < res.routes@.len()
            && #[trigger] similarity.similarity_answer(p1@ + p2@, res.routes@[j]@, g, Ok::<bool, SearchError>(true));
        assert(false);
    }
}

/// A vertex dealt with in some routes is dealt with once more routes are added.
proof fn lemma_considered_push<S: RouteSimilarity>(fwd: SearchTreeView, rev: SearchTreeView, v: VertexId,
    routes: Seq<Vec<EdgeTraversal>>, x: Vec<EdgeTraversal>, similarity: S, g: Graph)
    requires
        svp_considered(fwd, rev, v, routes, similarity, g),
    ensures
        svp_considered(fwd, rev, v, routes.push(x), similarity, g),
{
    let r2 = routes.push(x);
    let (p1, p2) = choose|p1: Vec<EdgeTraversal>, p2: Vec<EdgeTraversal>|
        #![trigger backtrack_matches(fwd, v, Ok::<Vec<EdgeTraversal>, SearchTreeError>(p1)), backtrack_matches(rev, v, Ok::<Vec<EdgeTraversal>, SearchTreeError>(p2))]
        backtrack_matches(fwd, v, Ok::<Vec<EdgeTraversal>, SearchTreeError>(p1))
        && backtrack_matches(rev, v, Ok::<Vec<EdgeTraversal>, SearchTreeError>(p2))
        && ((exists|i: int| 0 <= i < routes.len() && #[trigger] routes[i]@ == p1@ + p2@)
            || svp_may_reject(p1@ + p2@, routes, similarity, g));
    let q = p1@ + p2@;
    if exists|i: int| 0 <= i < routes.len() && #[trigger] routes[i]@ == q {
        let i = choose|i: int| 0 <= i < routes.len() && #[trigger] routes[i]@ == q;
        assert(r2[i]@ == q);
    } else if exists|j: int| 0 <= j < routes.len() && #[trigger] same_edge_ids(q, routes[j]@) {
        let j = choose|j: int| 0 <= j < routes.len() && #[trigger] same_edge_ids(q, routes[j]@);
        assert(r2[j] == routes[j]);
        assert(same_edge_ids(q, r2[j]@));
    } else if exists|j: int| 0 <= j < routes.len()
        && #[trigger] similarity.similarity_answer(q, routes[j]@, g, Ok::<bool, SearchError>(true)) {
        let j = choose|j: int| 0 <= j < routes.len()
            && #[trigger] similarity.similarity_answer(q, routes[j]@, g, Ok::<bool, SearchError>(true));
        assert(r2[j] == routes[j]);
        assert(similarity.similarity_answer(q, r2[j]@, g, Ok::<bool, SearchError>(true)));
    }
    assert(backtrack_matches(fwd, v, Ok::<Vec<EdgeTraversal>, SearchTreeError>(p1)));
}

/// Whether each of `routes` after the first was found dissimilar by `similarity`, over
/// graph `g`, to every route before it.
pub open spec fn svp_filtered<S: RouteSimilarity>(routes: Seq<Vec<EdgeTraversal>>, similarity: S, g: Graph) -> bool {
    forall|i: int, j: int| 0 <= j < i < routes.len()
        ==> #[trigger] similarity.similarity_answer(routes[i]@, routes[j]@, g, Ok::<bool, SearchError>(false))
}

/// The single-via-paths routes from the results of the forward search from the source
/// and the reverse search from the target, each of which must hold one tree (an internal
/// error otherwise): the forward tree's path to the target first, then the route through
/// each vertex where the trees meet, cheapest meeting first, unless it has a loop, repeats
/// the edge ids of an accepted route or is found similar to one; until the termination
/// criteria stop it or the meeting vertices run out; at most k routes.
pub fn svp_routes<T: TraversalModel, C: ConstraintModel, L: LabelModel, S: RouteSimilarity>(
    fwd: SearchAlgorithmResult,
    rev: SearchAlgorithmResult,
    query: &KspQuery,
    termination: &KspTerminationCriteria,
    similarity: &S,
    si: &SearchInstance<T, C, L>,
) -> (r: Result<SearchAlgorithmResult, SearchError>)
    ensures
        fwd.trees@.len() != 1 ==> r matches Err(SearchError::InternalError(_)),
        fwd.trees@.len() == 1 && rev.trees@.len() != 1 ==> r matches Err(SearchError::InternalError(_)),
        r matches Ok(res) ==> svp_outcome(res, query.source, query.target, si.graph) && res.routes@.len() <= query.k
            && res.trees@[0]@ == fwd.trees@[0]@ && res.trees@[1]@ == rev.trees@[0]@
            && svp_filtered(res.routes@, *similarity, si.graph),
        r matches Ok(res) ==> svp_complete(res, query.k, *termination, *similarity, si.graph),
        query.k >= 1 ==> (r matches Ok(res) ==> res.routes@.len() >= 1),
{
    let SearchAlgorithmResult { trees: mut fwd_trees, routes: _, iterations: fwd_iterations, terminated: fwd_terminated } = fwd;
    let SearchAlgorithmResult { trees: mut rev_trees, routes: _, iterations: rev_iterations, terminated: rev_terminated } = rev;
    if fwd_trees.len() != 1 {
        return Err(SearchError::InternalError("ksp solver fwd trees count should be exactly 1".to_owned()));
    }
    if rev_trees.len() != 1 {
        return Err(SearchError::InternalError("ksp solver rev trees count should be exactly 1".to_owned()));
    }
    let fwd_tree = fwd_trees.remove(0);
    let rev_tree = rev_trees.remove(0);

    let mut intersection_queue = find_intersections(&fwd_tree, &rev_tree);

    let tsp = match fwd_tree.backtrack(query.target) {
        Ok(p) => p,
        Err(e) => return Err(SearchError::SearchTreeFailure { source: e }),
    };
    let ghost tsp_view = tsp;
    let mut solution: Vec<Vec<EdgeTraversal>> = vec![tsp];
    let mut ksp_it: u64 = 0;
    let queue_len = intersection_queue.len();
    let ghost queue_start = intersection_queue@.len();
    proof { assert(solution@[0] == tsp_view); }
    let ghost mut done = false;
    loop
        invariant_except_break
            !done,
        invariant
            forall|v: VertexId| #[trigger] meeting_vertex(fwd_tree@, rev_tree@, v) && !intersection_queue@.contains_key(v)
                ==> svp_considered(fwd_tree@, rev_tree@, v, solution@, *similarity, si.graph),
            done ==> (terminates(*termination, query.k, solution@.len() as usize)
                || forall|v: VertexId| #[trigger] meeting_vertex(fwd_tree@, rev_tree@, v)
                    ==> svp_considered(fwd_tree@, rev_tree@, v, solution@, *similarity, si.graph)),
            fwd.trees@.len() == 1,
            rev.trees@.len() == 1,
            svp_filtered(solution@, *similarity, si.graph),
            solution@.len() >= 1,
            backtrack_matches(fwd_tree@, query.target, Ok::<Vec<EdgeTraversal>, SearchTreeError>(solution@[0])),
            forall|i: int, j: int| 0 <= i < j < solution@.len() ==> !same_edge_ids(#[trigger] solution@[i]@, #[trigger] solution@[j]@),
            forall|i: int| 1 <= i < solution@.len() ==> {
                &&& first_missing_edge(si.graph, (#[trigger] solution@[i])@) is None
                &&& route_sources(si.graph, solution@[i]@).no_duplicates()
                &&& via_route(fwd_tree@, rev_tree@, solution@[i]@)
            },
            forall|v: VertexId| #[trigger] intersection_queue@.contains_key(v) ==> meeting_vertex(fwd_tree@, rev_tree@, v),
            intersection_queue@.dom().finite(),
            ksp_it + intersection_queue@.len() <= queue_start,
            queue_start <= u64::MAX,
        ensures
            done,
        decreases intersection_queue@.len(),
    {
        if termination.terminate_search(query.k, solution.len()) {
            proof { done = true; }
            break;
        }
        let ghost before = intersection_queue@;
        let popped = intersection_queue.pop();
        match popped {
            None => {
                proof {
                    before.dom().lemma_len0_is_empty();
                    assert forall|v: VertexId| #[trigger] meeting_vertex(fwd_tree@, rev_tree@, v)
                        implies svp_considered(fwd_tree@, rev_tree@, v, solution@, *similarity, si.graph) by {
                        assert(!Set::<VertexId>::empty().contains(v));
                    }
                    done = true;
                }
                break;
            },
            Some((intersection_vertex_id, _)) => {
                proof { assert(before.contains_key(intersection_vertex_id)); }
                let fwd_route = match fwd_tree.backtrack(intersection_vertex_id) {
                    Ok(p) => p,
                    Err(e) => return Err(SearchError::SearchTreeFailure { source: e }),
                };
                let mut rev_route = match rev_tree.backtrack(intersection_vertex_id) {
                    Ok(p) => p,
                    Err(e) => return Err(SearchError::SearchTreeFailure { source: e }),
                };
                let ghost p1 = fwd_route;
                let ghost p2 = rev_route;
                let mut this_route = fwd_route;
                this_route.append(&mut rev_route);
                proof {
                    assert(meeting_vertex(fwd_tree@, rev_tree@, intersection_vertex_id));
                    assert(backtrack_matches(fwd_tree@, intersection_vertex_id, Ok::<Vec<EdgeTraversal>, SearchTreeError>(p1)));
                    assert(backtrack_matches(rev_tree@, intersection_vertex_id, Ok::<Vec<EdgeTraversal>, SearchTreeError>(p2)));
                    assert(this_route@ == p1@ + p2@);
                    assert(via_route(fwd_tree@, rev_tree@, this_route@));
                }
                let mut accept_route = true;
                let ghost mut has_loop = false;
                match route_contains_loop(&this_route, si) {
                    Ok(true) => {
                        proof { has_loop = true; }
                        accept_route = false;
                    },
                    Ok(false) => {},
                    Err(e) => return Err(e),
                }
                let mut idx: usize = 0;
                let mut similar_found = false;
                while idx < solution.len() && !similar_found
                    invariant
                        0 <= idx <= solution@.len(),
                        fwd.trees@.len() == 1,
                        rev.trees@.len() == 1,
                        !similar_found ==> forall|j: int| 0 <= j < idx
                            ==> #[trigger] similarity.similarity_answer(this_route@, solution@[j]@, si.graph, Ok::<bool, SearchError>(false)),
                        !similar_found ==> forall|j: int| 0 <= j < idx ==> !same_edge_ids(#[trigger] solution@[j]@, this_route@),
                        similar_found ==> idx < solution@.len() && (same_edge_ids(this_route@, solution@[idx as int]@)
                            || similarity.similarity_answer(this_route@, solution@[idx as int]@, si.graph, Ok::<bool, SearchError>(true))),
                    decreases solution@.len() - idx + (if similar_found { 0int } else { 1int }),
                {
                    let absolute_similarity = test_id_similarity(&this_route, &solution[idx]);
                    let answer = similarity.test_similarity(&this_route, &solution[idx], &si.graph);
                    let too_similar = match answer {
                        Ok(b) => b,
                        Err(e) => return Err(e),
                    };
                    if absolute_similarity || too_similar {
                        similar_found = true;
                    } else {
                        proof { lemma_same_edge_ids_symmetric(this_route@, solution@[idx as int]@); }
                        idx = idx + 1;
                    }
                }
                if similar_found {
                    accept_route = false;
                }
                proof {
                    if !accept_route {
                        if has_loop {
                            assert(!route_sources(si.graph, this_route@).no_duplicates());
                        } else {
                            assert(similar_found);
                        }
                        assert(svp_may_reject(p1@ + p2@, solution@, *similarity, si.graph));
                        assert(svp_considered(fwd_tree@, rev_tree@, intersection_vertex_id, solution@, *similarity, si.graph));
                        assert forall|v: VertexId| #[trigger] meeting_vertex(fwd_tree@, rev_tree@, v) && !intersection_queue@.contains_key(v)
                            implies svp_considered(fwd_tree@, rev_tree@, v, solution@, *similarity, si.graph) by {
                            if v != intersection_vertex_id {
                                assert(!before.contains_key(v));
                            }
                        }
                    }
                }
                if accept_route {
                    let ghost old_solution = solution@;
                    solution.push(this_route);
                    proof {
                        assert(solution@ == old_solution.push(this_route));
                        assert(solution@[old_solution.len() as int]@ == p1@ + p2@);
                        assert(svp_considered(fwd_tree@, rev_tree@, intersection_vertex_id, solution@, *similarity, si.graph));
                        assert forall|v: VertexId| #[trigger] meeting_vertex(fwd_tree@, rev_tree@, v) && !intersection_queue@.contains_key(v)
                            implies svp_considered(fwd_tree@, rev_tree@, v, solution@, *similarity, si.graph) by {
                            if v != intersection_vertex_id {
                                assert(!before.contains_key(v));
                                lemma_considered_push(fwd_tree@, rev_tree@, v, old_solution, this_route, *similarity, si.graph);
                            }
                        }
                        assert(solution@[0] == old_solution[0]);
                        assert forall|i: int, j: int| 0 <= i < j < solution@.len() implies !same_edge_ids(#[trigger] solution@[i]@, #[trigger] solution@[j]@) by {
                            if j < old_solution.len() {
                                assert(solution@[i] == old_solution[i] && solution@[j] == old_solution[j]);
                            } else {
                                assert(solution@[i] == old_solution[i]);
                            }
                        }
                        assert forall|i: int| 1 <= i < solution@.len() implies {
                            &&& first_missing_edge(si.graph, (#[trigger] solution@[i])@) is None
                            &&& route_sources(si.graph, solution@[i]@).no_duplicates()
                            &&& via_route(fwd_tree@, rev_tree@, solution@[i]@)
                        } by {
                            if i < old_solution.len() {
                                assert(solution@[i] == old_solution[i]);
                            }
                        }
                    }
                }
                ksp_it = ksp_it + 1;
            },
        }
    }
    let mut routes = solution;
    routes.truncate(query.k);
    proof {
        assert forall|i: int, j: int| 0 <= i < j < routes@.len() implies !same_edge_ids(#[trigger] routes@[i]@, #[trigger] routes@[j]@) by {
            assert(routes@[i] == solution@[i] && routes@[j] == solution@[j]);
        }
        assert forall|i: int| 1 <= i < routes@.len() implies {
            &&& first_missing_edge(si.graph, (#[trigger] routes@[i])@) is None
            &&& route_sources(si.graph, routes@[i]@).no_duplicates()
            &&& via_route(fwd_tree@, rev_tree@, routes@[i]@)
        } by {
            assert(routes@[i] == solution@[i]);
        }
        if routes@.len() > 0 {
            assert(routes@[0] == solution@[0]);
        }
        if routes@.len() < query.k {
            assert(routes@ == solution@);
        }
    }
    let terminated = termination_message(fwd_terminated, rev_terminated);
    let iterations = fwd_iterations.saturating_add(rev_iterations).saturating_add(ksp_it);
    let trees = vec![fwd_tree, rev_tree];
    Ok(SearchAlgorithmResult { trees, routes, iterations, terminated })
}

proof fn lemma_same_edge_ids_symmetric(a: Seq<EdgeTraversal>, b: Seq<EdgeTraversal>)
    ensures
        same_edge_ids(a, b) == same_edge_ids(b, a),
{
    if same_edge_ids(a, b) {
        assert forall|i: int| 0 <= i < b.len() implies (#[trigger] b[i]).edge_id == a[i].edge_id by {
            assert(a[i].edge_id == b[i].edge_id);
        }
    }
    if same_edge_ids(b, a) {
        assert forall|i: int| 0 <= i < a.len() implies (#[trigger] a[i]).edge_id == b[i].edge_id by {
            assert(b[i].edge_id == a[i].edge_id);
        }
    }
}

} // verus!
