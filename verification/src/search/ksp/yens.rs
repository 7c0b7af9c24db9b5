use vstd::prelude::*;
use std::collections::HashSet;
use crate::cost::Cost;
use crate::model::constraint::ConstraintModel;
use crate::model::label_model::LabelModel;
use crate::model::traversal::TraversalModel;
use crate::model::cost_model::CostModel;
use crate::network::{Graph, VertexId};
use crate::search::route_laws::{connected_walk, law_backtrack_allowed, law_backtrack_is_connected, lemma_walk_concat, lemma_walk_prefix, lemma_walk_same_graph};
use crate::search::search_algorithm::sssp_outcome;
use crate::search::search_result::TerminationFailurePolicy;
use crate::search::search_tree::{backtrack_matches, has_vertex};
use crate::search::a_star::a_star_algorithm::{add_costs, clamped_sum};
use crate::search::direction::Direction;
use crate::search::edge_traversal::{EdgeTraversal, EdgeTraversalView};
use crate::search::ksp::ksp_query::KspQuery;
use crate::search::ksp::ksp_termination_criteria::KspTerminationCriteria;
use crate::search::ksp::svp::{same_edge_ids, test_id_similarity};
use crate::search::search_algorithm::{run_sssp, uses_a_star, SearchAlgorithm};
use crate::search::search_error::SearchError;
use crate::search::search_tree::SearchTreeError;
use crate::search::search_instance::SearchInstance;
use crate::search::search_result::SearchAlgorithmResult;
use crate::search::search_tree::traversal_views;
use crate::search::util::edge_cut_constraint_model::EdgeCutConstraintModel;
use crate::search::util::route_similarity_function::RouteSimilarity;

verus! {

broadcast use vstd::std_specs::hash::group_hash_axioms;

/// Whether `route` starts like `base` and leaves it before its end: the first `n`
/// traversals agree for some `n` from 1 up to, but not including, the length of `base`.
pub open spec fn deviates_from(route: Seq<EdgeTraversalView>, base: Seq<EdgeTraversalView>) -> bool {
    exists|n: int| 1 <= n < base.len() && n <= route.len() && #[trigger] route.take(n) == base.take(n)
}

/// Whether every one of `routes` is a connected walk through `g` from `source` to `target`.
pub open spec fn routes_connect(g: Graph, routes: Seq<Vec<EdgeTraversal>>, source: VertexId, target: VertexId) -> bool {
    forall|i: int| 0 <= i < routes.len() ==> connected_walk(g, traversal_views(#[trigger] routes[i]@), source, target)
}

/// What Yen's algorithm gives: every route after the first deviates from a route before it.
pub open spec fn yens_outcome(routes: Seq<Vec<EdgeTraversal>>) -> bool {
    forall|i: int| 1 <= i < routes.len() ==> #[trigger] deviates_from_earlier(routes, i)
}

/// Whether route `i` of `routes` deviates from a route before it.
pub open spec fn deviates_from_earlier(routes: Seq<Vec<EdgeTraversal>>, i: int) -> bool {
    exists|j: int| 0 <= j < i && #[trigger] deviates_from(traversal_views(routes[i]@), traversal_views(routes[j]@))
}

/// Whether no two of the routes traverse the same edge ids.
pub open spec fn pairwise_different(routes: Seq<Vec<EdgeTraversal>>) -> bool {
    forall|i: int, j: int| 0 <= i < j < routes.len() ==> !same_edge_ids(#[trigger] routes[i]@, #[trigger] routes[j]@)
}

/// Whether `route` traverses other edge ids than each of `routes`.
pub open spec fn differs_from_all(route: Seq<EdgeTraversal>, routes: Seq<Vec<EdgeTraversal>>) -> bool {
    forall|t: int| 0 <= t < routes.len() ==> !same_edge_ids(route, #[trigger] routes[t]@)
}

/// Whether `root` is the first `n` edges of `route`, by edge id, and `route` has them.
pub open spec fn prefix_agrees(root: Seq<EdgeTraversal>, route: Seq<EdgeTraversal>, n: int) -> bool {
    &&& root.len() == n
    &&& n <= route.len()
    &&& forall|i: int| 0 <= i < n ==> (#[trigger] root[i]).edge_id == route[i].edge_id
}

proof fn lemma_same_ids_views(x: Seq<EdgeTraversal>, y: Seq<EdgeTraversal>, z: Seq<EdgeTraversal>)
    requires
        traversal_views(x) == traversal_views(y),
    ensures
        same_edge_ids(x, z) == same_edge_ids(y, z),
{
    assert(x.len() == traversal_views(x).len());
    assert(y.len() == traversal_views(y).len());
    assert forall|i: int| 0 <= i < x.len() implies x[i].edge_id == y[i].edge_id by {
        assert(traversal_views(x)[i] == x[i]@);
        assert(traversal_views(y)[i] == y[i]@);
    }
}

/// A route made of `root` and a non-empty spur whose first edge is not cut differs from
/// every route whose next edge after the same root is cut.
proof fn lemma_candidate_differs(
    root: Seq<EdgeTraversal>,
    spur: Seq<EdgeTraversal>,
    accepted: Seq<Vec<EdgeTraversal>>,
    cut: Set<usize>,
    n: int,
)
    requires
        root.len() == n,
        spur.len() > 0,
        !cut.contains(spur[0].edge_id.0),
        forall|b: int| 0 <= b < accepted.len() && prefix_agrees(root, (#[trigger] accepted[b])@, n)
            && n < accepted[b]@.len() ==> cut.contains(accepted[b]@[n].edge_id.0),
    ensures
        differs_from_all(root + spur, accepted),
{
    let cand = root + spur;
    assert forall|t: int| 0 <= t < accepted.len() implies !same_edge_ids(cand, #[trigger] accepted[t]@) by {
        let a = accepted[t]@;
        if same_edge_ids(cand, a) {
            assert forall|i: int| 0 <= i < n implies (#[trigger] root[i]).edge_id == a[i].edge_id by {
                assert(cand[i] == root[i]);
                assert(cand[i].edge_id == a[i].edge_id);
            }
            assert(prefix_agrees(root, a, n));
            assert(cand[n] == spur[0]);
            assert(cand[n].edge_id == a[n].edge_id);
        }
    }
}

/// The route of a spur search through a graph whose constraint models all cut the same
/// edges is not empty, and its first edge is not cut.
proof fn lemma_spur_route<C: ConstraintModel>(
    res: SearchAlgorithmResult,
    spur: VertexId,
    target: VertexId,
    policy: TerminationFailurePolicy,
    g: Graph,
    cm: CostModel,
    models: Seq<EdgeCutConstraintModel<C>>,
    cut: Set<usize>,
)
    requires
        g.wf(),
        sssp_outcome(res, spur, Some(target), Direction::Forward, policy, g, cm, models),
        forall|i: int| 0 <= i < models.len() ==> (#[trigger] models[i]).cut() == cut,
    ensures
        res.routes@.len() == 1,
        res.routes@[0]@.len() > 0,
        !cut.contains(res.routes@[0]@[0].edge_id.0),
{
    let t = res.trees@[0]@;
    let route = res.routes@[0];
    if spur == target {
        assert(!has_vertex(t, target));
    }
    law_backtrack_is_connected(t, g, Direction::Forward, spur, target, route);
    assert(traversal_views(route@).len() == route@.len());
    if route@.len() == 0 {
        assert(connected_walk(g, traversal_views(route@), spur, target));
    }
    law_backtrack_allowed(t, g, models, target, route);
    let e = route@[0];
    let edge = g.edge_at(e.edge_list_id, e.edge_id)->0;
    assert(!models[e.edge_list_id.0 as int].forbids(edge));
    assert(edge.edge_id == e.edge_id);
}

/// The first route of a search result; an internal error when it has none.
pub fn get_first_route(res: &SearchAlgorithmResult) -> (r: Result<&Vec<EdgeTraversal>, SearchError>)
    ensures
        res.routes@.len() > 0 ==> (r matches Ok(route) && *route == res.routes@[0]),
        res.routes@.len() == 0 ==> r matches Err(SearchError::InternalError(_)),
{
    if res.routes.len() > 0 {
        Ok(&res.routes[0])
    } else {
        Err(SearchError::InternalError("no empty results should be stored in routes".to_owned()))
    }
}

/// Whether two routes traverse the same edge ids in the same order.
pub fn same_path(a: &Vec<EdgeTraversal>, b: &Vec<EdgeTraversal>) -> (r: bool)
    ensures
        r == same_edge_ids(a@, b@),
{
    test_id_similarity(a, b)
}

/// A copy of the first `n` traversals of `route` (all of them when it is shorter).
fn route_prefix(route: &Vec<EdgeTraversal>, n: usize) -> (r: Vec<EdgeTraversal>)
    ensures
        n <= route@.len() ==> traversal_views(r@) == traversal_views(route@).take(n as int),
        n > route@.len() ==> traversal_views(r@) == traversal_views(route@),
{
    let m: usize = if n <= route.len() { n } else { route.len() };
    let mut r: Vec<EdgeTraversal> = Vec::new();
    let mut i: usize = 0;
    while i < m
        invariant
            m <= route@.len(),
            m == (if n <= route@.len() { n as int } else { route@.len() as int }),
            0 <= i <= m,
            traversal_views(r@) == traversal_views(route@).take(i as int),
        decreases m - i,
    {
        let e = route[i].clone();
        let ghost ev = e@;
        let ghost old_r = r@;
        r.push(e);
        proof {
            assert(ev == route@[i as int]@);
            assert(traversal_views(r@) =~= traversal_views(old_r).push(ev));
            assert(traversal_views(r@) =~= traversal_views(route@).take(i + 1));
        }
        i = i + 1;
    }
    proof {
        assert(traversal_views(route@).take(route@.len() as int) =~= traversal_views(route@));
    }
    r
}

proof fn lemma_views_concat(a: Seq<EdgeTraversal>, b: Seq<EdgeTraversal>)
    ensures
        traversal_views(a + b) == traversal_views(a) + traversal_views(b),
{
    assert(traversal_views(a + b) =~= traversal_views(a) + traversal_views(b));
}

/// A copy of `route`.
fn copy_route(route: &Vec<EdgeTraversal>) -> (r: Vec<EdgeTraversal>)
    ensures
        traversal_views(r@) == traversal_views(route@),
{
    route_prefix(route, route.len())
}

/// The total costs of the traversals of a route added up in order from zero, each
/// partial sum clamped to the range of a cost value.
pub open spec fn route_total(route: Seq<EdgeTraversal>) -> int
    decreases route.len(),
{
    if route.len() == 0 {
        0
    } else {
        clamped_sum(Cost(route_total(route.drop_last()) as i64), route.last().cost.total_cost)
    }
}

proof fn lemma_route_total_in_range(route: Seq<EdgeTraversal>)
    ensures
        i64::MIN <= route_total(route) <= i64::MAX,
    decreases route.len(),
{
    if route.len() > 0 {
        lemma_route_total_in_range(route.drop_last());
    }
}

/// The summed total cost of a route, each sum clamped to the range of a cost value.
fn route_cost(route: &Vec<EdgeTraversal>) -> (c: Cost)
    ensures
        c.0 == route_total(route@),
{
    let mut c = Cost(0);
    let mut i: usize = 0;
    while i < route.len()
        invariant
            0 <= i <= route@.len(),
            c.0 == route_total(route@.take(i as int)),
        decreases route@.len() - i,
    {
        proof {
            let t = route@.take(i + 1);
            assert(t.drop_last() =~= route@.take(i as int));
            lemma_route_total_in_range(route@.take(i as int));
            assert(Cost(route_total(route@.take(i as int)) as i64) == c);
        }
        c = add_costs(c, route[i].cost.total_cost);
        i = i + 1;
    }
    proof { assert(route@.take(i as int) =~= route@); }
    c
}

/// Whether a route of total cost `cost` is cheaper than the best candidate `best`
/// (always, when there is none).
pub open spec fn cheaper_than(cost: int, best: Option<(Vec<EdgeTraversal>, Cost)>) -> bool {
    match best {
        None => true,
        Some(b) => cost < b.1.0,
    }
}

/// Whether `nb` is the best candidate after `candidate` was tested against the first `n`
/// accepted routes, starting from `best`: either `best` stays, and then, were the
/// candidate cheaper, each of those routes was found similar to it; or the candidate, at
/// its total cost, replaced it, being cheaper and found dissimilar to one of them.
pub open spec fn considered<S: RouteSimilarity>(
    nb: Option<(Vec<EdgeTraversal>, Cost)>,
    best: Option<(Vec<EdgeTraversal>, Cost)>,
    candidate: Seq<EdgeTraversal>,
    accepted: Seq<Vec<EdgeTraversal>>,
    similarity: S,
    graph: Graph,
    n: int,
) -> bool {
    ||| nb == best && (cheaper_than(route_total(candidate), best) ==> forall|t: int| 0 <= t < n
        ==> #[trigger] similarity.similarity_answer(accepted[t]@, candidate, graph, Ok::<bool, SearchError>(true)))
    ||| nb matches Some(b) && traversal_views(b.0@) == traversal_views(candidate) && b.1.0 == route_total(candidate)
        && cheaper_than(route_total(candidate), best)
        && exists|t: int| 0 <= t < n
            && #[trigger] similarity.similarity_answer(accepted[t]@, candidate, graph, Ok::<bool, SearchError>(false))
}

/// The best candidate after `candidate` is tested against each accepted route in turn:
/// the candidate replaces `best` when the similarity function finds it dissimilar to an
/// accepted route and its total cost is lower than the best candidate's.
pub fn consider_candidate<S: RouteSimilarity>(
    accepted: &Vec<Vec<EdgeTraversal>>,
    candidate: &Vec<EdgeTraversal>,
    best: Option<(Vec<EdgeTraversal>, Cost)>,
    similarity: &S,
    graph: &Graph,
) -> (r: Result<Option<(Vec<EdgeTraversal>, Cost)>, SearchError>)
    ensures
        r matches Ok(nb) ==> considered(nb, best, candidate@, accepted@, *similarity, *graph, accepted@.len() as int),
{
    let ghost b0 = best;
    let mut nb = best;
    let mut t: usize = 0;
    while t < accepted.len()
        invariant
            0 <= t <= accepted@.len(),
            considered(nb, b0, candidate@, accepted@, *similarity, *graph, t as int),
        decreases accepted@.len() - t,
    {
        let answer = similarity.test_similarity(&accepted[t], candidate, graph);
        let similar = match answer {
            Ok(b) => b,
            Err(e) => return Err(e),
        };
        let ghost nb0 = nb;
        if !similar {
            let candidate_cost = route_cost(candidate);
            let replace = match &nb {
                Some((_, best_cost)) => candidate_cost.0 < best_cost.0,
                None => true,
            };
            if replace {
                nb = Some((copy_route(candidate), candidate_cost));
            }
        }
        proof {
            assert(similarity.similarity_answer(accepted@[t as int]@, candidate@, *graph, answer));
        }
        t = t + 1;
    }
    Ok(nb)
}

/// Whether edge id `x` is the next edge, after the first `n`, of an accepted route whose
/// first `n` edges are those of `root`.
pub open spec fn cut_by(accepted: Seq<Vec<EdgeTraversal>>, root: Seq<EdgeTraversal>, n: int, x: usize) -> bool {
    exists|b: int| 0 <= b < accepted.len() && #[trigger] prefix_agrees(root, accepted[b]@, n)
        && n < accepted[b]@.len() && accepted[b]@[n].edge_id.0 == x
}

/// Whether edge id `x` is the next edge, after the first `n`, of one of the first `upto`
/// accepted routes whose first `n` edges are those of `root`.
pub open spec fn cut_among(accepted: Seq<Vec<EdgeTraversal>>, root: Seq<EdgeTraversal>, n: int, x: usize, upto: int) -> bool {
    exists|b: int| 0 <= b < upto && #[trigger] prefix_agrees(root, accepted[b]@, n)
        && n < accepted[b]@.len() && accepted[b]@[n].edge_id.0 == x
}

/// The edges a spur search of Yen's algorithm must not use: for every accepted route
/// that starts with the edges of `root` (its first `spur_len` edges), the edge it takes next.
pub fn spur_cut_edges(accepted: &Vec<Vec<EdgeTraversal>>, root: &Vec<EdgeTraversal>, spur_len: usize) -> (r: Vec<usize>)
    requires
        root@.len() == spur_len,
    ensures
        forall|x: usize| #[trigger] r@.contains(x) <==> cut_by(accepted@, root@, spur_len as int, x),
{
    let mut cut_edges: Vec<usize> = Vec::new();
    let mut a: usize = 0;
    while a < accepted.len()
        invariant
            0 <= a <= accepted@.len(),
            root@.len() == spur_len,
            forall|b: int| 0 <= b < a && prefix_agrees(root@, (#[trigger] accepted@[b])@, spur_len as int)
                && spur_len < accepted@[b]@.len() ==> cut_edges@.contains(accepted@[b]@[spur_len as int].edge_id.0),
            forall|w: int| 0 <= w < cut_edges@.len() ==> cut_among(accepted@, root@, spur_len as int, #[trigger] cut_edges@[w], a as int),
        decreases accepted@.len() - a,
    {
        let accepted_path_root = route_prefix(&accepted[a], spur_len);
        proof {
            if spur_len <= accepted@[a as int]@.len() {
                let v = traversal_views(accepted_path_root@);
                assert(v.len() == accepted_path_root@.len());
                assert(v == traversal_views(accepted@[a as int]@).take(spur_len as int));
                assert forall|i: int| 0 <= i < spur_len implies (#[trigger] accepted_path_root@[i]).edge_id == accepted@[a as int]@[i].edge_id by {
                    assert(v[i] == accepted_path_root@[i]@);
                    assert(traversal_views(accepted@[a as int]@)[i] == accepted@[a as int]@[i]@);
                }
                if prefix_agrees(root@, accepted@[a as int]@, spur_len as int) {
                    assert(same_edge_ids(root@, accepted_path_root@));
                }
                if same_edge_ids(root@, accepted_path_root@) {
                    assert forall|i: int| 0 <= i < spur_len implies (#[trigger] root@[i]).edge_id == accepted@[a as int]@[i].edge_id by {
                        assert(root@[i].edge_id == accepted_path_root@[i].edge_id);
                    }
                    assert(prefix_agrees(root@, accepted@[a as int]@, spur_len as int));
                }
            }
        }
        let ghost cut0 = cut_edges@;
        if same_path(root, &accepted_path_root) && spur_len < accepted[a].len() {
            cut_edges.push(accepted[a][spur_len].edge_id.0);
        }
        proof {
            assert forall|b: int| 0 <= b < a + 1 && prefix_agrees(root@, (#[trigger] accepted@[b])@, spur_len as int)
                && spur_len < accepted@[b]@.len() implies cut_edges@.contains(accepted@[b]@[spur_len as int].edge_id.0) by {
                if b < a {
                    assert(cut0.contains(accepted@[b]@[spur_len as int].edge_id.0));
                    let w = choose|w: int| 0 <= w < cut0.len() && cut0[w] == accepted@[b]@[spur_len as int].edge_id.0;
                    assert(cut_edges@[w] == cut0[w]);
                } else {
                    assert(cut_edges@.last() == accepted@[b]@[spur_len as int].edge_id.0);
                }
            }
        }
        let ghost a0 = a;
        a = a + 1;
        proof {
            assert forall|w: int| 0 <= w < cut_edges@.len() implies cut_among(accepted@, root@, spur_len as int, #[trigger] cut_edges@[w], a as int) by {
                if w < cut0.len() {
                    assert(cut_edges@[w] == cut0[w]);
                    assert(cut_among(accepted@, root@, spur_len as int, cut0[w], a0 as int));
                    let b = choose|b: int| 0 <= b < a0 && #[trigger] prefix_agrees(root@, accepted@[b]@, spur_len as int)
                        && spur_len < accepted@[b]@.len() && accepted@[b]@[spur_len as int].edge_id.0 == cut0[w];
                } else {
                    assert(prefix_agrees(root@, accepted@[a0 as int]@, spur_len as int));
                }
            }
        }
    }
    proof {
        assert forall|x: usize| #[trigger] cut_edges@.contains(x) <==> cut_by(accepted@, root@, spur_len as int, x) by {
            if cut_edges@.contains(x) {
                let w = choose|w: int| 0 <= w < cut_edges@.len() && cut_edges@[w] == x;
                assert(cut_among(accepted@, root@, spur_len as int, cut_edges@[w], accepted@.len() as int));
            }
            if cut_by(accepted@, root@, spur_len as int, x) {
                let b = choose|b: int| 0 <= b < accepted@.len() && #[trigger] prefix_agrees(root@, accepted@[b]@, spur_len as int)
                    && spur_len < accepted@[b]@.len() && accepted@[b]@[spur_len as int].edge_id.0 == x;
            }
        }
    }
    cut_edges
}

/// The candidate route of a spur search: the root path followed by a copy of the first
/// route the spur search found; an internal error when it found none.
pub fn spur_candidate(root: Vec<EdgeTraversal>, spur_result: &SearchAlgorithmResult) -> (r: Result<Vec<EdgeTraversal>, SearchError>)
    ensures
        spur_result.routes@.len() == 0 ==> r matches Err(SearchError::InternalError(_)),
        spur_result.routes@.len() > 0 ==> (r matches Ok(c) && exists|p: Seq<EdgeTraversal>|
            traversal_views(p) == traversal_views(spur_result.routes@[0]@) && #[trigger] (root@ + p) == c@),
{
    let mut spur_path = match get_first_route(spur_result) {
        Ok(p) => copy_route(p),
        Err(e) => return Err(e),
    };
    let mut candidate = root;
    let ghost p = spur_path@;
    let ghost r0 = candidate@;
    candidate.append(&mut spur_path);
    proof {
        assert(r0 + p == candidate@);
    }
    Ok(candidate)
}

/// What choosing among the candidates `cands` of a round gives, with routes `accepted`
/// already accepted: nothing when every candidate was found similar to every accepted
/// route; otherwise a copy of candidate `i`, at its total cost, that was found dissimilar
/// to some accepted route, where every candidate cheaper than it, and every earlier one
/// as cheap, was found similar to every accepted route.
pub open spec fn round_choice<S: RouteSimilarity>(
    nb: Option<(Vec<EdgeTraversal>, Cost)>,
    cands: Seq<Vec<EdgeTraversal>>,
    accepted: Seq<Vec<EdgeTraversal>>,
    similarity: S,
    graph: Graph,
) -> bool {
    match nb {
        None => forall|c: int, t: int| 0 <= c < cands.len() && 0 <= t < accepted.len()
            ==> #[trigger] similarity.similarity_answer(accepted[t]@, cands[c]@, graph, Ok::<bool, SearchError>(true)),
        Some(b) => exists|i: int| 0 <= i < cands.len() && #[trigger] chosen_at(b, cands, accepted, similarity, graph, i),
    }
}

/// Whether `b` is candidate `i` of `cands` chosen as `round_choice` describes.
pub open spec fn chosen_at<S: RouteSimilarity>(
    b: (Vec<EdgeTraversal>, Cost),
    cands: Seq<Vec<EdgeTraversal>>,
    accepted: Seq<Vec<EdgeTraversal>>,
    similarity: S,
    graph: Graph,
    i: int,
) -> bool {
    &&& traversal_views(b.0@) == traversal_views(cands[i]@)
    &&& b.1.0 == route_total(cands[i]@)
    &&& exists|t: int| 0 <= t < accepted.len()
        && #[trigger] similarity.similarity_answer(accepted[t]@, cands[i]@, graph, Ok::<bool, SearchError>(false))
    &&& forall|c: int, t: int| 0 <= c < cands.len() && 0 <= t < accepted.len()
        && (route_total(cands[c]@) < b.1.0 || (c < i && route_total(cands[c]@) == b.1.0))
        ==> #[trigger] similarity.similarity_answer(accepted[t]@, cands[c]@, graph, Ok::<bool, SearchError>(true))
}

/// The number of spur indices along `route`: each of its edges but the last two.
pub open spec fn spur_count_of(route: Seq<EdgeTraversal>) -> int {
    if route.len() >= 2 { route.len() - 2 } else { 0 }
}

/// Whether `cands` are the candidates of a round built on route `prev`: one for each
/// spur index `c` along `prev`, in order, the `c`-th starting with the first `c + 1`
/// edges of `prev`.
pub open spec fn spur_candidates(cands: Seq<Vec<EdgeTraversal>>, prev: Seq<EdgeTraversal>) -> bool {
    &&& cands.len() == spur_count_of(prev)
    &&& forall|c: int| 0 <= c < cands.len()
        ==> traversal_views(#[trigger] cands[c]@).take(c + 1) == traversal_views(prev).take(c + 1)
}

/// Whether route `i` of `routes` was the pick of a round: among the candidates rooted at
/// every spur index along route `i - 1` (`spur_candidates`), all deviating from it, it is
/// the one `chosen_at` describes against the routes before it, the cheapest that
/// `similarity` found dissimilar to one of them.
pub open spec fn picked_in_round<S: RouteSimilarity>(
    routes: Seq<Vec<EdgeTraversal>>,
    i: int,
    similarity: S,
    graph: Graph,
) -> bool {
    exists|b: (Vec<EdgeTraversal>, Cost), cands: Seq<Vec<EdgeTraversal>>, j: int|
        #[trigger] chosen_at(b, cands, routes.take(i), similarity, graph, j)
        && 0 <= j < cands.len()
        && traversal_views(routes[i]@) == traversal_views(b.0@)
        && forall|c: int| 0 <= c < cands.len() ==> deviates_from(traversal_views(#[trigger] cands[c]@), traversal_views(routes[i - 1]@))
        && spur_candidates(cands, routes[i - 1]@)
}

/// Each route after the first of a Yen's result costs no more than any candidate of its
/// round that `similarity` could not find similar to some route before it, where the
/// round has one candidate for every spur index along the route before, starting with
/// that route's edges up to the index.
pub proof fn law_yens_pick_is_cheapest_over_all_spurs<S: RouteSimilarity>(
    routes: Seq<Vec<EdgeTraversal>>,
    i: int,
    similarity: S,
    graph: Graph,
)
    requires
        1 <= i < routes.len(),
        picked_in_round(routes, i, similarity, graph),
    ensures
        exists|cands: Seq<Vec<EdgeTraversal>>, j: int| {
            &&& spur_candidates(cands, routes[i - 1]@)
            &&& 0 <= j < cands.len()
            &&& traversal_views(routes[i]@) == #[trigger] traversal_views(cands[j]@)
            &&& forall|c: int, t: int| 0 <= c < cands.len() && 0 <= t < i
                && !#[trigger] similarity.similarity_answer(routes[t]@, cands[c]@, graph, Ok::<bool, SearchError>(true))
                ==> route_total(cands[j]@) <= route_total(cands[c]@)
        },
{
    let (b, cands, j) = choose|b: (Vec<EdgeTraversal>, Cost), cands: Seq<Vec<EdgeTraversal>>, j: int|
        #[trigger] chosen_at(b, cands, routes.take(i), similarity, graph, j)
        && 0 <= j < cands.len()
        && traversal_views(routes[i]@) == traversal_views(b.0@)
        && forall|c: int| 0 <= c < cands.len() ==> deviates_from(traversal_views(#[trigger] cands[c]@), traversal_views(routes[i - 1]@))
        && spur_candidates(cands, routes[i - 1]@);
    assert forall|c: int, t: int| 0 <= c < cands.len() && 0 <= t < i
        && !#[trigger] similarity.similarity_answer(routes[t]@, cands[c]@, graph, Ok::<bool, SearchError>(true))
        implies route_total(cands[j]@) <= route_total(cands[c]@) by {
        assert(routes.take(i)[t] == routes[t]);
        if route_total(cands[c]@) < b.1.0 {
            assert(similarity.similarity_answer(routes.take(i)[t]@, cands[c]@, graph, Ok::<bool, SearchError>(true)));
        }
    }
}

/// Chooses the route a round of Yen's algorithm accepts among its candidates, testing
/// each against the accepted routes with `similarity` in turn: the cheapest candidate
/// found dissimilar to an accepted route, the first of those when several are as cheap.
pub fn select_round<S: RouteSimilarity>(
    accepted: &Vec<Vec<EdgeTraversal>>,
    cands: &Vec<Vec<EdgeTraversal>>,
    similarity: &S,
    graph: &Graph,
) -> (r: Result<Option<(Vec<EdgeTraversal>, Cost)>, SearchError>)
    ensures
        r matches Ok(nb) ==> round_choice(nb, cands@, accepted@, *similarity, *graph),
{
    let mut best: Option<(Vec<EdgeTraversal>, Cost)> = None;
    let mut n: usize = 0;
    while n < cands.len()
        invariant
            0 <= n <= cands@.len(),
            round_choice(best, cands@.take(n as int), accepted@, *similarity, *graph),
        decreases cands@.len() - n,
    {
        let ghost b0 = best;
        let ghost pre = cands@.take(n as int);
        let ghost post = cands@.take(n + 1);
        best = match consider_candidate(accepted, &cands[n], best, similarity, graph) {
            Ok(nb) => nb,
            Err(e) => return Err(e),
        };
        proof {
            assert(post.len() == n + 1);
            assert forall|c: int| 0 <= c < n implies #[trigger] post[c] == pre[c] by {}
            assert(post[n as int] == cands@[n as int]);
            let cn = cands@[n as int];
            if best == b0 {
                match b0 {
                    None => {
                        assert forall|c: int, t: int| 0 <= c < post.len() && 0 <= t < accepted@.len()
                            implies #[trigger] similarity.similarity_answer(accepted@[t]@, post[c]@, *graph, Ok::<bool, SearchError>(true)) by {
                            if c < n {
                                assert(post[c] == pre[c]);
                            }
                        }
                    },
                    Some(b) => {
                        let i = choose|i: int| 0 <= i < pre.len() && #[trigger] chosen_at(b, pre, accepted@, *similarity, *graph, i);
                        assert(pre[i] == post[i]);
                        assert forall|c: int, t: int| 0 <= c < post.len() && 0 <= t < accepted@.len()
                            && (route_total(post[c]@) < b.1.0 || (c < i && route_total(post[c]@) == b.1.0))
                            implies #[trigger] similarity.similarity_answer(accepted@[t]@, post[c]@, *graph, Ok::<bool, SearchError>(true)) by {
                            if c < n {
                                assert(post[c] == pre[c]);
                            }
                        }
                        assert(chosen_at(b, post, accepted@, *similarity, *graph, i));
                    },
                }
            } else {
                let b = best->0;
                assert forall|c: int, t: int| 0 <= c < post.len() && 0 <= t < accepted@.len()
                    && (route_total(post[c]@) < b.1.0 || (c < n && route_total(post[c]@) == b.1.0))
                    implies #[trigger] similarity.similarity_answer(accepted@[t]@, post[c]@, *graph, Ok::<bool, SearchError>(true)) by {
                    assert(c < n);
                    assert(post[c] == pre[c]);
                    match b0 {
                        None => {},
                        Some(ob) => {
                            let i0 = choose|i: int| 0 <= i < pre.len() && #[trigger] chosen_at(ob, pre, accepted@, *similarity, *graph, i);
                        },
                    }
                }
                assert(chosen_at(b, post, accepted@, *similarity, *graph, n as int));
            }
        }
        n = n + 1;
    }
    proof { assert(cands@.take(cands@.len() as int) =~= cands@); }
    Ok(best)
}

/// The set of the edge ids in `ids`.
fn id_set(ids: &Vec<usize>) -> (r: HashSet<usize>)
    ensures
        r@ == ids@.to_set(),
{
    let mut r: HashSet<usize> = HashSet::new();
    let mut i: usize = 0;
    while i < ids.len()
        invariant
            0 <= i <= ids@.len(),
            r@ == ids@.take(i as int).to_set(),
        decreases ids@.len() - i,
    {
        r.insert(ids[i]);
        proof {
            assert(ids@.take(i + 1) =~= ids@.take(i as int).push(ids@[i as int]));
            ids@.take(i as int).lemma_push_to_set_commute(ids@[i as int]);
        }
        i = i + 1;
    }
    proof { assert(ids@.take(ids@.len() as int) =~= ids@); }
    r
}

/// The search instance of a spur search: a copy of `si` whose constraint models forbid
/// the cut edges.
fn cut_instance<T: TraversalModel + Clone, C: ConstraintModel + Clone, L: LabelModel + Clone>(
    si: &SearchInstance<T, C, L>,
    cut_edges: &Vec<usize>,
) -> (r: SearchInstance<T, EdgeCutConstraintModel<C>, L>)
    ensures
        r.traversal_models@.len() == si.traversal_models@.len(),
        r.default_edge_list == si.default_edge_list,
        r.graph.same_as(si.graph),
        forall|i: int| 0 <= i < r.constraint_models@.len() ==> (#[trigger] r.constraint_models@[i]).cut() == cut_edges@.to_set(),
{
    let mut constraint_models: Vec<EdgeCutConstraintModel<C>> = Vec::new();
    let mut i: usize = 0;
    while i < si.constraint_models.len()
        invariant
            0 <= i <= si.constraint_models@.len(),
            forall|k: int| 0 <= k < constraint_models@.len() ==> (#[trigger] constraint_models@[k]).cut() == cut_edges@.to_set(),
        decreases si.constraint_models@.len() - i,
    {
        constraint_models.push(EdgeCutConstraintModel::new(si.constraint_models[i].clone(), id_set(cut_edges)));
        i = i + 1;
    }
    SearchInstance {
        graph: si.graph.clone(),
        constraint_models,
        traversal_models: si.traversal_models.clone(),
        state_model: si.state_model.clone(),
        cost_model: si.cost_model.clone(),
        termination_model: si.termination_model,
        label_model: si.label_model.clone(),
        default_edge_list: si.default_edge_list,
    }
}

/// Generates alternative routes with Yen's k-shortest loopless paths algorithm (Yen,
/// "Finding the k shortest loopless paths in a network", 1971): each round deviates
/// from the most recently accepted route at each of its vertices in turn, cutting the
/// next edge of every accepted route sharing the same root, and searches a spur path
/// from there to the target; the cheapest candidate dissimilar to an accepted route is
/// accepted. Spur searches run the underlying single-source shortest path algorithm;
/// a round that accepts nothing ends the search. Over a well-formed graph no two of the
/// routes traverse the same edge ids.
pub fn run<T: TraversalModel + Clone, C: ConstraintModel + Clone, L: LabelModel + Clone, S: RouteSimilarity + Clone + Default>(
    query: &KspQuery,
    termination: &KspTerminationCriteria,
    similarity: &S,
    si: &SearchInstance<T, C, L>,
    underlying: &SearchAlgorithm<S>,
) -> (r: Result<SearchAlgorithmResult, SearchError>)
    requires
        uses_a_star(*underlying) ==> si.estimation_index() < si.traversal_models@.len(),
    ensures
        r matches Ok(res) ==> yens_outcome(res.routes@) && res.routes@.len() <= (if query.k == 0 { 1 } else { query.k }),
        r matches Ok(res) ==> forall|i: int| 1 <= i < res.routes@.len() ==> #[trigger] picked_in_round(res.routes@, i, *similarity, si.graph),
        si.graph.wf() ==> (r matches Ok(res) ==> pairwise_different(res.routes@)),
        *underlying is SingleSourceShortestPath ==> (r matches Ok(res) ==> res.trees@.len() == 1 && res.routes@.len() >= 1
            && exists|p: Vec<EdgeTraversal>| #[trigger] backtrack_matches(res.trees@[0]@, query.target, Ok::<Vec<EdgeTraversal>, SearchTreeError>(p))
                && traversal_views(p@) == traversal_views(res.routes@[0]@)),
        query.source == query.target && *underlying is SingleSourceShortestPath ==> r == Err::<SearchAlgorithmResult, SearchError>(
            SearchError::SearchTreeFailure { source: SearchTreeError::VertexNotFound(query.source) }),
        si.graph.wf() && *underlying is SingleSourceShortestPath ==> (r matches Ok(res)
            ==> routes_connect(si.graph, res.routes@, query.source, query.target)),
    decreases *underlying, 1int,
{
    let shortest = match underlying.run_vertex_oriented(query.source, Some(query.target), query.user_query, &Direction::Forward, si) {
        Ok(res) => res,
        Err(e) => return Err(e),
    };
    if shortest.routes.len() == 0 {
        return Ok(SearchAlgorithmResult::default());
    }
    let shortest_path = match get_first_route(&shortest) {
        Ok(p) => copy_route(p),
        Err(e) => return Err(e),
    };
    let ghost first_views = traversal_views(shortest_path@);
    let ghost conn = si.graph.wf() && *underlying is SingleSourceShortestPath;
    proof {
        if conn {
            law_backtrack_is_connected(shortest.trees@[0]@, si.graph, Direction::Forward, query.source, query.target, shortest.routes@[0]);
        }
    }
    let mut accepted: Vec<Vec<EdgeTraversal>> = vec![shortest_path];
    let mut iterations: u64 = 1;

    while accepted.len() < query.k
        invariant
            accepted@.len() >= 1,
            traversal_views(accepted@[0]@) == first_views,
            conn == (si.graph.wf() && *underlying is SingleSourceShortestPath),
            conn ==> routes_connect(si.graph, accepted@, query.source, query.target),
            !(query.source == query.target && *underlying is SingleSourceShortestPath),
            accepted@.len() <= (if query.k == 0 { 1 } else { query.k }),
            yens_outcome(accepted@),
            forall|i: int| 1 <= i < accepted@.len() ==> #[trigger] picked_in_round(accepted@, i, *similarity, si.graph),
            si.graph.wf() ==> pairwise_different(accepted@),
            uses_a_star(*underlying) ==> si.estimation_index() < si.traversal_models@.len(),
        decreases (if accepted@.len() < query.k { query.k - accepted@.len() } else { 0 }),
    {
        if termination.terminate_search(query.k, accepted.len()) {
            break;
        }
        let prev_index = accepted.len() - 1;
        let mut candidates: Vec<Vec<EdgeTraversal>> = Vec::new();
        let prev_accepted_path = copy_route(&accepted[prev_index]);
        let ghost base = traversal_views(accepted@[prev_index as int]@);
        let spur_count: usize = if prev_accepted_path.len() >= 2 { prev_accepted_path.len() - 2 } else { 0 };
        proof {
            assert(traversal_views(prev_accepted_path@).len() == prev_accepted_path@.len());
            assert(traversal_views(accepted@[prev_index as int]@).len() == accepted@[prev_index as int]@.len());
        }

        let mut spur_idx: usize = 0;
        while spur_idx < spur_count
            invariant
                spur_count <= prev_accepted_path@.len(),
                !(query.source == query.target && *underlying is SingleSourceShortestPath),
                spur_count + 2 <= prev_accepted_path@.len() || spur_count == 0,
                traversal_views(prev_accepted_path@) == base,
                prev_index + 1 == accepted@.len(),
                traversal_views(accepted@[prev_index as int]@) == base,
                yens_outcome(accepted@),
                forall|i: int| 1 <= i < accepted@.len() ==> #[trigger] picked_in_round(accepted@, i, *similarity, si.graph),
                forall|c: int| 0 <= c < candidates@.len() ==> deviates_from(traversal_views(#[trigger] candidates@[c]@), base),
                candidates@.len() == spur_idx,
                spur_idx <= spur_count,
                spur_count == spur_count_of(accepted@[prev_index as int]@),
                forall|c: int| 0 <= c < candidates@.len() ==> traversal_views(#[trigger] candidates@[c]@).take(c + 1) == base.take(c + 1),
                conn == (si.graph.wf() && *underlying is SingleSourceShortestPath),
                conn ==> routes_connect(si.graph, accepted@, query.source, query.target),
                conn ==> routes_connect(si.graph, candidates@, query.source, query.target),
                uses_a_star(*underlying) ==> si.estimation_index() < si.traversal_models@.len(),
                si.graph.wf() ==> pairwise_different(accepted@),
                si.graph.wf() ==> forall|c: int| 0 <= c < candidates@.len() ==> differs_from_all(#[trigger] candidates@[c]@, accepted@),
            decreases spur_count - spur_idx,
        {
            let spur_len: usize = spur_idx + 1;
            let root_path = route_prefix(&prev_accepted_path, spur_len);
            proof {
                assert(traversal_views(root_path@).len() == root_path@.len());
                assert(root_path@.len() == spur_len);
            }
            let spur_edge = &prev_accepted_path[spur_idx];
            let spur_vertex_id: VertexId = match si.graph.get_edge(&spur_edge.edge_list_id, &spur_edge.edge_id) {
                Ok(e) => e.dst_vertex_id,
                Err(e) => return Err(SearchError::NetworkFailure { source: e }),
            };

            let cut_edges = spur_cut_edges(&accepted, &root_path, spur_len);
            proof {
                assert forall|b: int| 0 <= b < accepted@.len() && prefix_agrees(root_path@, (#[trigger] accepted@[b])@, spur_len as int)
                    && spur_len < accepted@[b]@.len() implies cut_edges@.contains(accepted@[b]@[spur_len as int].edge_id.0) by {
                    assert(cut_by(accepted@, root_path@, spur_len as int, accepted@[b]@[spur_len as int].edge_id.0));
                }
            }

            let yens_si = cut_instance(si, &cut_edges);
            let spur_result = match underlying {
                SearchAlgorithm::SingleSourceShortestPath { termination_behavior, a_star } =>
                    match run_sssp(termination_behavior, *a_star, spur_vertex_id, Some(query.target), &Direction::Forward, &yens_si) {
                        Ok(res) => {
                            proof {
                                if si.graph.wf() {
                                    yens_si.graph.lemma_same_as_wf(si.graph);
                                    lemma_spur_route(res, spur_vertex_id, query.target, *termination_behavior,
                                        yens_si.graph, yens_si.cost_model, yens_si.constraint_models@, cut_edges@.to_set());
                                    law_backtrack_is_connected(res.trees@[0]@, yens_si.graph, Direction::Forward, spur_vertex_id,
                                        query.target, res.routes@[0]);
                                    lemma_walk_same_graph(si.graph, yens_si.graph, traversal_views(res.routes@[0]@), spur_vertex_id, query.target);
                                }
                            }
                            res
                        },
                        Err(e) => return Err(e),
                    },
                _ => return Err(SearchError::BuildError(
                    "spur searches of Yen's algorithm need a single-source shortest path algorithm".to_owned())),
            };
            iterations = iterations.saturating_add(1);

            let ghost root_views = traversal_views(root_path@);
            let ghost old_candidate = root_path@;
            let candidate_path = match spur_candidate(root_path, &spur_result) {
                Ok(c) => c,
                Err(e) => return Err(e),
            };
            let ghost old_tail = choose|p: Seq<EdgeTraversal>|
                traversal_views(p) == traversal_views(spur_result.routes@[0]@) && #[trigger] (old_candidate + p) == candidate_path@;
            proof {
                if si.graph.wf() {
                    let first = spur_result.routes@[0]@;
                    assert(traversal_views(old_tail).len() == old_tail.len());
                    assert(traversal_views(first).len() == first.len());
                    assert(traversal_views(old_tail)[0] == old_tail[0]@);
                    assert(traversal_views(first)[0] == first[0]@);
                    assert(old_tail[0].edge_id == first[0].edge_id);
                }
            }
            proof {
                lemma_views_concat(old_candidate, old_tail);
                assert(traversal_views(candidate_path@).take(spur_len as int) =~= root_views);
                assert(root_views == base.take(spur_len as int));
                assert(deviates_from(traversal_views(candidate_path@), base));
                if si.graph.wf() {
                    assert forall|b: int| 0 <= b < accepted@.len() && prefix_agrees(old_candidate, (#[trigger] accepted@[b])@, spur_len as int)
                        && spur_len < accepted@[b]@.len() implies cut_edges@.to_set().contains(accepted@[b]@[spur_len as int].edge_id.0) by {
                        assert(cut_edges@.contains(accepted@[b]@[spur_len as int].edge_id.0));
                    }
                    lemma_candidate_differs(old_candidate, old_tail, accepted@, cut_edges@.to_set(), spur_len as int);
                    assert(candidate_path@ == old_candidate + old_tail);
                }
                if conn {
                    assert(connected_walk(si.graph, base, query.source, query.target));
                    lemma_walk_prefix(si.graph, base, query.source, query.target, spur_len as int);
                    assert(base[spur_idx as int] == prev_accepted_path@[spur_idx as int]@);
                    assert(connected_walk(si.graph, root_views, query.source, spur_vertex_id));
                    assert(connected_walk(si.graph, traversal_views(old_tail), spur_vertex_id, query.target));
                    lemma_walk_concat(si.graph, root_views, traversal_views(old_tail), query.source, spur_vertex_id, query.target);
                }
            }
            let ghost cands0 = candidates@;
            candidates.push(candidate_path);
            proof {
                assert forall|c: int| 0 <= c < candidates@.len() implies deviates_from(traversal_views(#[trigger] candidates@[c]@), base) by {
                    if c < cands0.len() { assert(candidates@[c] == cands0[c]); }
                }
                assert forall|c: int| 0 <= c < candidates@.len() implies traversal_views(#[trigger] candidates@[c]@).take(c + 1) == base.take(c + 1) by {
                    if c < cands0.len() { assert(candidates@[c] == cands0[c]); }
                }
                if conn {
                    assert forall|c: int| 0 <= c < candidates@.len() implies connected_walk(si.graph, traversal_views(#[trigger] candidates@[c]@),
                        query.source, query.target) by {
                        if c < cands0.len() { assert(candidates@[c] == cands0[c]); }
                    }
                }
                if si.graph.wf() {
                    assert forall|c: int| 0 <= c < candidates@.len() implies differs_from_all(#[trigger] candidates@[c]@, accepted@) by {
                        if c < cands0.len() { assert(candidates@[c] == cands0[c]); }
                    }
                }
            }
            spur_idx = spur_idx + 1;
        }
        let best_candidate = match select_round(&accepted, &candidates, similarity, &si.graph) {
            Ok(nb) => nb,
            Err(e) => return Err(e),
        };
        proof {
            if best_candidate is Some {
                let bc = best_candidate->0;
                let i = choose|i: int| 0 <= i < candidates@.len()
                    && #[trigger] chosen_at(bc, candidates@, accepted@, *similarity, si.graph, i);
                assert(traversal_views(bc.0@) == traversal_views(candidates@[i]@));
                assert(deviates_from(traversal_views(candidates@[i]@), base));
                if conn {
                    assert(connected_walk(si.graph, traversal_views(candidates@[i]@), query.source, query.target));
                }
                if si.graph.wf() {
                    assert(differs_from_all(candidates@[i]@, accepted@));
                    assert forall|u: int| 0 <= u < accepted@.len() implies !same_edge_ids(bc.0@, #[trigger] accepted@[u]@) by {
                        lemma_same_ids_views(bc.0@, candidates@[i]@, accepted@[u]@);
                    }
                }
            }
        }
        match &best_candidate {
            Some((best_path, _)) => {
                let ghost old_accepted = accepted@;
                let chosen = copy_route(best_path);
                proof {
                    if si.graph.wf() {
                        assert forall|u: int| 0 <= u < old_accepted.len() implies !same_edge_ids(chosen@, #[trigger] old_accepted[u]@) by {
                            lemma_same_ids_views(chosen@, best_path@, old_accepted[u]@);
                        }
                    }
                }
                accepted.push(chosen);
                proof {
                    if si.graph.wf() {
                        assert forall|i: int, j: int| 0 <= i < j < accepted@.len()
                            implies !same_edge_ids(#[trigger] accepted@[i]@, #[trigger] accepted@[j]@) by {
                            if j < old_accepted.len() {
                                assert(accepted@[i] == old_accepted[i]);
                                assert(accepted@[j] == old_accepted[j]);
                            } else {
                                assert(accepted@[i] == old_accepted[i]);
                                assert(accepted@[j]@ == chosen@);
                                assert(!same_edge_ids(chosen@, old_accepted[i]@));
                                if same_edge_ids(old_accepted[i]@, chosen@) {
                                    assert(same_edge_ids(chosen@, old_accepted[i]@));
                                }
                            }
                        }
                    }
                    let bc = best_candidate->0;
                    let jc = choose|jc: int| 0 <= jc < candidates@.len()
                        && #[trigger] chosen_at(bc, candidates@, old_accepted, *similarity, si.graph, jc);
                    assert forall|i: int| 1 <= i < accepted@.len() implies #[trigger] picked_in_round(accepted@, i, *similarity, si.graph) by {
                        if i < old_accepted.len() {
                            assert(picked_in_round(old_accepted, i, *similarity, si.graph));
                            let (b, cands, j) = choose|b: (Vec<EdgeTraversal>, Cost), cands: Seq<Vec<EdgeTraversal>>, j: int|
                                #[trigger] chosen_at(b, cands, old_accepted.take(i), *similarity, si.graph, j)
                                && 0 <= j < cands.len()
                                && traversal_views(old_accepted[i]@) == traversal_views(b.0@)
                                && forall|c: int| 0 <= c < cands.len() ==> deviates_from(traversal_views(#[trigger] cands[c]@), traversal_views(old_accepted[i - 1]@));
                            assert(accepted@.take(i) =~= old_accepted.take(i));
                            assert(accepted@[i] == old_accepted[i]);
                            assert(accepted@[i - 1] == old_accepted[i - 1]);
                            assert(chosen_at(b, cands, accepted@.take(i), *similarity, si.graph, j));
                        } else {
                            assert(accepted@.take(i) =~= old_accepted);
                            assert(accepted@[i - 1] == old_accepted[prev_index as int]);
                            assert(chosen_at(bc, candidates@, accepted@.take(i), *similarity, si.graph, jc));
                        }
                    }
                    assert forall|i: int| 1 <= i < accepted@.len() implies #[trigger] deviates_from_earlier(accepted@, i) by {
                        if i < old_accepted.len() {
                            assert(accepted@[i] == old_accepted[i]);
                            assert(deviates_from_earlier(old_accepted, i));
                            let j = choose|j: int| 0 <= j < i && #[trigger] deviates_from(traversal_views(old_accepted[i]@), traversal_views(old_accepted[j]@));
                            assert(accepted@[j] == old_accepted[j]);
                        } else {
                            assert(accepted@[prev_index as int] == old_accepted[prev_index as int]);
                            assert(deviates_from(traversal_views(accepted@[i]@), traversal_views(accepted@[prev_index as int]@)));
                        }
                    }
                }
            },
            None => {
                break;
            },
        }
    }

    proof {
        if *underlying is SingleSourceShortestPath {
            let p0 = shortest.routes@[0];
            assert(backtrack_matches(shortest.trees@[0]@, query.target, Ok::<Vec<EdgeTraversal>, SearchTreeError>(p0)));
            assert(traversal_views(p0@) == traversal_views(accepted@[0]@));
        }
    }
    let SearchAlgorithmResult { trees, routes: _, iterations: _, terminated } = shortest;
    Ok(SearchAlgorithmResult { trees, routes: accepted, iterations, terminated })
}

} // verus!
