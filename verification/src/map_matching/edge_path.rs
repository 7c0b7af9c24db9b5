use vstd::prelude::*;
use crate::map_matching::map_matching_error::MapMatchingError;
use crate::map_matching::simple_map_matching::{dedup_consecutive, law_dedup_consecutive};
use crate::model::constraint::ConstraintModel;
use crate::model::label_model::LabelModel;
use crate::model::traversal::TraversalModel;
use crate::network::{Edge, EdgeId, EdgeListId, Graph};
use crate::search::a_star::a_star_algorithm::{run_edge_oriented, vertex_search_result};
use crate::search::direction::Direction;
use crate::search::edge_traversal::EdgeTraversal;
use crate::search::search_error::SearchError;
use crate::search::search_instance::SearchInstance;
use crate::search::search_result::SearchResult;
use crate::search::search_tree::{backtrack_matches, SearchTreeError};

verus! {

/// The edges of a route, in order.
pub open spec fn route_edge_ids(p: Seq<EdgeTraversal>) -> Seq<(EdgeListId, EdgeId)> {
    p.map_values(|et: EdgeTraversal| (et.edge_list_id, et.edge_id))
}

/// Whether `p` is a route that a forward A* search from the edge `start` toward the edge
/// `end` may give: the backtrack, from the source vertex of `end`, of the tree of a
/// search from the destination vertex of `start`.
pub open spec fn searched_route<T: TraversalModel, C: ConstraintModel, L: LabelModel>(
    si: SearchInstance<T, C, L>,
    start: (EdgeListId, EdgeId),
    end: (EdgeListId, EdgeId),
    p: Vec<EdgeTraversal>,
) -> bool {
    &&& si.graph.edge_at(start.0, start.1) matches Some(e1)
    &&& si.graph.edge_at(end.0, end.1) matches Some(e2)
    &&& exists|res: SearchResult|
        vertex_search_result(
            Ok::<SearchResult, SearchError>(res),
            e1.dst_vertex_id,
            Some(e2.src_vertex_id),
            Direction::Forward,
            si.graph,
            si.cost_model,
            si.constraint_models@,
        ) && #[trigger] backtrack_matches(res.tree@, e2.src_vertex_id, Ok::<Vec<EdgeTraversal>, SearchTreeError>(p))
}

/// The route that a forward A* search from the edge `start` toward the edge `end` gives,
/// when the search succeeds and its tree holds the source vertex of `end`; none when
/// either edge is missing or they are the same edge, whose search tree stays empty.
fn search_route<T: TraversalModel, C: ConstraintModel, L: LabelModel>(
    start: (EdgeListId, EdgeId),
    end: (EdgeListId, EdgeId),
    si: &SearchInstance<T, C, L>,
) -> (r: Option<Vec<EdgeTraversal>>)
    requires
        si.estimation_index() < si.traversal_models@.len(),
    ensures
        r matches Some(p) ==> searched_route(*si, start, end, p),
        si.graph.edge_at(start.0, start.1) is None || si.graph.edge_at(end.0, end.1) is None || start == end ==> r is None,
{
    let to_src = match si.graph.src_vertex_id(&end.0, &end.1) {
        Ok(v) => v,
        Err(_) => return None,
    };
    let result = run_edge_oriented(start, Some(end), &Direction::Forward, true, si);
    let ghost r0 = result;
    match result {
        Ok(search_result) => {
            match search_result.tree.backtrack(to_src) {
                Ok(path) => {
                    proof {
                        assert(r0 == Ok::<SearchResult, SearchError>(search_result));
                        assert(backtrack_matches(search_result.tree@, to_src, Ok::<Vec<EdgeTraversal>, SearchTreeError>(path)));
                    }
                    Some(path)
                },
                Err(_) => None,
            }
        },
        Err(_) => None,
    }
}

/// The sequence `v` with each run of equal consecutive edges reduced to one edge.
pub fn dedup_edge_path(v: &Vec<(EdgeListId, EdgeId)>) -> (r: Vec<(EdgeListId, EdgeId)>)
    ensures
        r@ == dedup_consecutive(v@),
{
    let mut r: Vec<(EdgeListId, EdgeId)> = Vec::new();
    let mut i: usize = 0;
    while i < v.len()
        invariant
            0 <= i <= v@.len(),
            r@ == dedup_consecutive(v@.take(i as int)),
        decreases v@.len() - i,
    {
        let e = v[i];
        proof {
            assert(v@.take(i + 1).drop_last() =~= v@.take(i as int));
            assert(v@.take(i + 1).last() == e);
        }
        let repeated = r.len() > 0 && r[r.len() - 1].0.0 == e.0.0 && r[r.len() - 1].1.0 == e.1.0;
        if !repeated {
            r.push(e);
        }
        i = i + 1;
    }
    proof {
        assert(v@.take(v@.len() as int) =~= v@);
    }
    r
}

/// The edge ids of a route, in order.
fn edge_ids(p: &Vec<EdgeTraversal>) -> (r: Vec<(EdgeListId, EdgeId)>)
    ensures
        r@ == route_edge_ids(p@),
{
    let mut r: Vec<(EdgeListId, EdgeId)> = Vec::new();
    let mut i: usize = 0;
    while i < p.len()
        invariant
            0 <= i <= p@.len(),
            r@ == route_edge_ids(p@.take(i as int)),
        decreases p@.len() - i,
    {
        r.push((p[i].edge_list_id, p[i].edge_id));
        proof {
            assert(route_edge_ids(p@.take(i + 1)) =~= route_edge_ids(p@.take(i as int)).push((p@[i as int].edge_list_id, p@[i as int].edge_id)));
        }
        i = i + 1;
    }
    proof {
        assert(p@.take(p@.len() as int) =~= p@);
    }
    r
}

/// What a path between the edges `start` and `end` may be: `start` alone when they are
/// the same edge; else `start` then `end`, or, when a search between them gives a route,
/// `start`, the edges of the route and `end`, with consecutive repeats removed.
pub open spec fn edge_path_between<T: TraversalModel, C: ConstraintModel, L: LabelModel>(
    si: SearchInstance<T, C, L>,
    start: (EdgeListId, EdgeId),
    end: (EdgeListId, EdgeId),
    q: Seq<(EdgeListId, EdgeId)>,
) -> bool {
    if start == end {
        q == seq![start]
    } else {
        ||| q == seq![start, end]
        ||| exists|p: Vec<EdgeTraversal>| #[trigger] searched_route(si, start, end, p)
            && q == dedup_consecutive(seq![start] + route_edge_ids(p@) + seq![end])
    }
}

/// A path between two edges, as `shortest_edge_path` gives it, begins with the first
/// edge and ends with the second, and never holds the same edge twice in a row.
pub proof fn law_edge_path_endpoints<T: TraversalModel, C: ConstraintModel, L: LabelModel>(
    si: SearchInstance<T, C, L>,
    start: (EdgeListId, EdgeId),
    end: (EdgeListId, EdgeId),
    q: Seq<(EdgeListId, EdgeId)>,
)
    requires
        edge_path_between(si, start, end, q),
    ensures
        q.len() >= 1,
        q[0] == start,
        q.last() == end,
        forall|i: int| 0 <= i < q.len() - 1 ==> #[trigger] q[i] != q[i + 1],
{
    if start != end && q != seq![start, end] {
        let p = choose|p: Vec<EdgeTraversal>| #[trigger] searched_route(si, start, end, p)
            && q == dedup_consecutive(seq![start] + route_edge_ids(p@) + seq![end]);
        let full = seq![start] + route_edge_ids(p@) + seq![end];
        law_dedup_consecutive(full);
        assert(full[0] == start);
        assert(full.last() == end);
    }
}

/// The path of edges from `start` to `end` along the route of a forward A* search, with
/// both ends included and consecutive repeats removed; `start` alone when the two are
/// the same edge, and `start` then `end` when the search gives no route.
pub fn shortest_edge_path<T: TraversalModel, C: ConstraintModel, L: LabelModel>(
    start: (EdgeListId, EdgeId),
    end: (EdgeListId, EdgeId),
    si: &SearchInstance<T, C, L>,
) -> (r: Vec<(EdgeListId, EdgeId)>)
    requires
        si.estimation_index() < si.traversal_models@.len(),
    ensures
        edge_path_between(*si, start, end, r@),
        start != end && (si.graph.edge_at(start.0, start.1) is None || si.graph.edge_at(end.0, end.1) is None)
            ==> r@ == seq![start, end],
{
    if start.0.0 == end.0.0 && start.1.0 == end.1.0 {
        proof { assert(start == end); }
        let r = vec![start];
        proof { assert(r@ =~= seq![start]); }
        return r;
    }
    match search_route(start, end, si) {
        Some(path) => {
            let ids = edge_ids(&path);
            let mut full: Vec<(EdgeListId, EdgeId)> = Vec::new();
            full.push(start);
            let mut i: usize = 0;
            while i < ids.len()
                invariant
                    0 <= i <= ids@.len(),
                    full@ == seq![start] + ids@.take(i as int),
                decreases ids@.len() - i,
            {
                full.push(ids[i]);
                proof {
                    assert(ids@.take(i + 1) =~= ids@.take(i as int).push(ids@[i as int]));
                }
                i = i + 1;
            }
            full.push(end);
            let r = dedup_edge_path(&full);
            proof {
                assert(ids@.take(ids@.len() as int) =~= ids@);
                assert(full@ =~= seq![start] + route_edge_ids(path@) + seq![end]);
                assert(searched_route(*si, start, end, path));
            }
            r
        },
        None => {
            let r = vec![start, end];
            proof { assert(r@ =~= seq![start, end]); }
            r
        },
    }
}

/// The length of a route: the sum of the lengths of its edges that the graph holds.
pub open spec fn route_length(g: Graph, p: Seq<EdgeTraversal>) -> int
    decreases p.len(),
{
    if p.len() == 0 {
        0
    } else {
        route_length(g, p.drop_last()) + match g.edge_at(p.last().edge_list_id, p.last().edge_id) {
            Some(e) => e.distance as int,
            None => 0,
        }
    }
}

/// `x`, capped at the largest `u128`.
pub open spec fn capped(x: int) -> int {
    if x > u128::MAX { u128::MAX as int } else { x }
}

/// The length of a route: the sum of the lengths of its edges that the graph holds.
fn route_length_of(g: &Graph, p: &Vec<EdgeTraversal>) -> (r: u128)
    ensures
        r == route_length(*g, p@),
        r <= p@.len() * (u64::MAX as int),
{
    let mut sum: u128 = 0;
    let mut i: usize = 0;
    while i < p.len()
        invariant
            0 <= i <= p@.len(),
            sum == route_length(*g, p@.take(i as int)),
            sum <= i * (u64::MAX as int),
        decreases p@.len() - i,
    {
        let d: u64 = match g.get_edge(&p[i].edge_list_id, &p[i].edge_id) {
            Ok(e) => e.distance,
            Err(_) => 0,
        };
        proof {
            assert(p@.take(i + 1).drop_last() =~= p@.take(i as int));
            assert(p@.take(i + 1).last() == p@[i as int]);
            assert(i * (u64::MAX as int) + (u64::MAX as int) == (i + 1) * (u64::MAX as int)) by (nonlinear_arith);
            assert((i + 1) * (u64::MAX as int) <= (usize::MAX as int) * (u64::MAX as int)) by (nonlinear_arith)
                requires i + 1 <= usize::MAX;
            assert((usize::MAX as int) * (u64::MAX as int) < u128::MAX) by (nonlinear_arith)
                requires usize::MAX <= u64::MAX;
        }
        sum = sum + d as u128;
        i = i + 1;
    }
    proof {
        assert(p@.take(p@.len() as int) =~= p@);
    }
    sum
}

/// Twice the travel distance between the midpoints of the edges `from` and `to`:
/// none when the graph lacks either edge; nothing for the same edge; the two edge
/// lengths when `from` ends where `to` starts; else, when a forward A* search between
/// them gives a route, the two edge lengths and twice the route's length (capped at
/// the largest `u128`), and none when it gives no route.
pub fn doubled_route_distance<T: TraversalModel, C: ConstraintModel, L: LabelModel>(
    from: (EdgeListId, EdgeId),
    to: (EdgeListId, EdgeId),
    si: &SearchInstance<T, C, L>,
) -> (r: Option<u128>)
    requires
        si.estimation_index() < si.traversal_models@.len(),
    ensures
        match (si.graph.edge_at(from.0, from.1), si.graph.edge_at(to.0, to.1)) {
            (Some(e1), Some(e2)) => if from == to {
                r == Some(0u128)
            } else if e1.dst_vertex_id == e2.src_vertex_id {
                r == Some((e1.distance + e2.distance) as u128)
            } else {
                r matches Some(d) ==> exists|p: Vec<EdgeTraversal>| #[trigger] searched_route(*si, from, to, p)
                    && d == capped(2 * route_length(si.graph, p@) + e1.distance + e2.distance)
            },
            _ => r is None,
        },
{
    let from_edge = match si.graph.get_edge(&from.0, &from.1) {
        Ok(e) => e,
        Err(_) => return None,
    };
    let to_edge = match si.graph.get_edge(&to.0, &to.1) {
        Ok(e) => e,
        Err(_) => return None,
    };
    let ends: u128 = from_edge.distance as u128 + to_edge.distance as u128;
    if from.0.0 == to.0.0 && from.1.0 == to.1.0 {
        proof { assert(from == to); }
        return Some(0);
    }
    if from_edge.dst_vertex_id.0 == to_edge.src_vertex_id.0 {
        return Some(ends);
    }
    let route = search_route(from, to, si);
    let ghost searched = route;
    let r = distance_along(from_edge, to_edge, route, si);
    proof {
        if let Some(path) = searched {
            assert(searched_route(*si, from, to, path));
            lemma_route_length_nonneg(si.graph, path@);
        }
    }
    r
}

/// Twice the travel distance between the midpoints of edges `from_edge` and `to_edge`
/// along `route`, a route from the head of the first to the tail of the second: the two
/// edge lengths and twice the route's length, capped at the largest `u128`, whatever
/// the route; none only when there is no route.
pub fn distance_along<T: TraversalModel, C: ConstraintModel, L: LabelModel>(
    from_edge: &Edge,
    to_edge: &Edge,
    route: Option<Vec<EdgeTraversal>>,
    si: &SearchInstance<T, C, L>,
) -> (r: Option<u128>)
    ensures
        match route {
            Some(p) => r == Some(capped(2 * route_length(si.graph, p@) + from_edge.distance + to_edge.distance) as u128),
            None => r is None,
        },
{
    let ends: u128 = from_edge.distance as u128 + to_edge.distance as u128;
    match route {
        Some(path) => {
            let len = route_length_of(&si.graph, &path);
            let total: u128 = if len > (u128::MAX - ends) / 2 {
                u128::MAX
            } else {
                2 * len + ends
            };
            Some(total)
        },
        None => None,
    }
}

/// Routes between two edges have a distance: `distance_along` gives one for every route,
/// never less than the two edge lengths, and no shorter for a longer route.
pub proof fn law_distance_along_complete(e1: Edge, e2: Edge, g: Graph, p: Seq<EdgeTraversal>, q: Seq<EdgeTraversal>,
    rp: Option<u128>, rq: Option<u128>)
    requires
        rp == Some(capped(2 * route_length(g, p) + e1.distance + e2.distance) as u128),
        rq == Some(capped(2 * route_length(g, q) + e1.distance + e2.distance) as u128),
    ensures
        rp is Some,
        rp->0 >= e1.distance + e2.distance,
        route_length(g, p) <= route_length(g, q) ==> rp->0 <= rq->0,
        2 * route_length(g, p) + e1.distance + e2.distance <= u128::MAX ==> rp->0 == 2 * route_length(g, p) + e1.distance + e2.distance,
{
    lemma_route_length_nonneg(g, p);
    lemma_route_length_nonneg(g, q);
}

proof fn lemma_route_length_nonneg(g: Graph, p: Seq<EdgeTraversal>)
    ensures
        route_length(g, p) >= 0,
    decreases p.len(),
{
    if p.len() > 0 {
        lemma_route_length_nonneg(g, p.drop_last());
    }
}

/// The inner edges of a path: all but its first and last; none for a path of at most two edges.
pub open spec fn inner_edges(q: Seq<(EdgeListId, EdgeId)>) -> Seq<(EdgeListId, EdgeId)> {
    if q.len() > 2 { q.subrange(1, q.len() - 1) } else { Seq::empty() }
}

/// Whether the consecutive segment paths `prev` and `curr` meet without a look-up: one
/// of them is empty, or `prev` ends on the edge where `curr` starts.
pub open spec fn meet_directly(prev: Seq<(EdgeListId, EdgeId)>, curr: Seq<(EdgeListId, EdgeId)>) -> bool {
    prev.len() == 0 || curr.len() == 0 || prev.last() == curr[0]
}

/// Whether joining the consecutive segment paths `prev` and `curr` can look up what it
/// needs: they meet directly, or the graph holds the last edge of `prev` and the first of `curr`.
pub open spec fn junction_known(g: Graph, prev: Seq<(EdgeListId, EdgeId)>, curr: Seq<(EdgeListId, EdgeId)>) -> bool {
    ||| meet_directly(prev, curr)
    ||| g.edge_at(prev.last().0, prev.last().1) is Some && g.edge_at(curr[0].0, curr[0].1) is Some
}

/// Whether `gap` is what a join may put between the consecutive segment paths `prev`
/// and `curr`: nothing when they meet directly or `prev` ends at the vertex where `curr`
/// starts; else the inner edges of a path between the last edge of `prev` and the first of `curr`.
pub open spec fn gap_between<T: TraversalModel, C: ConstraintModel, L: LabelModel>(
    si: SearchInstance<T, C, L>,
    prev: Seq<(EdgeListId, EdgeId)>,
    curr: Seq<(EdgeListId, EdgeId)>,
    gap: Seq<(EdgeListId, EdgeId)>,
) -> bool {
    if meet_directly(prev, curr) {
        gap.len() == 0
    } else {
        match (si.graph.edge_at(prev.last().0, prev.last().1), si.graph.edge_at(curr[0].0, curr[0].1)) {
            (Some(e1), Some(e2)) => if e1.dst_vertex_id == e2.src_vertex_id {
                gap.len() == 0
            } else {
                exists|q: Seq<(EdgeListId, EdgeId)>| #[trigger] edge_path_between(si, prev.last(), curr[0], q)
                    && gap == inner_edges(q)
            },
            _ => false,
        }
    }
}

/// The first `n` segment paths, each preceded by its gap.
pub open spec fn interleaved(gaps: Seq<Seq<(EdgeListId, EdgeId)>>, paths: Seq<Seq<(EdgeListId, EdgeId)>>, n: nat) -> Seq<(EdgeListId, EdgeId)>
    decreases n,
{
    if n == 0 {
        Seq::empty()
    } else {
        interleaved(gaps, paths, (n - 1) as nat) + gaps[n - 1] + paths[n - 1]
    }
}

/// The views of a sequence of paths.
pub open spec fn path_views(paths: Seq<Vec<(EdgeListId, EdgeId)>>) -> Seq<Seq<(EdgeListId, EdgeId)>> {
    paths.map_values(|v: Vec<(EdgeListId, EdgeId)>| v@)
}

/// Appends the items of `src` at positions `from` to `to` (excluded) to `dst`.
fn push_range(dst: &mut Vec<(EdgeListId, EdgeId)>, src: &Vec<(EdgeListId, EdgeId)>, from: usize, to: usize)
    requires
        from <= to <= src@.len(),
    ensures
        final(dst)@ == old(dst)@ + src@.subrange(from as int, to as int),
{
    let mut i: usize = from;
    while i < to
        invariant
            from <= i <= to <= src@.len(),
            dst@ == old(dst)@ + src@.subrange(from as int, i as int),
        decreases to - i,
    {
        dst.push(src[i]);
        proof {
            assert(src@.subrange(from as int, i + 1) =~= src@.subrange(from as int, i as int).push(src@[i as int]));
        }
        i = i + 1;
    }
}

/// Joins the paths of consecutive trace segments into one path: where a segment's path
/// does not continue the previous one (it starts on another edge, at another vertex
/// than the previous path ends), the inner edges of a shortest edge path between them
/// are put in between; consecutive repeats are then removed. An internal error when
/// there are no segments, or when the graph lacks an edge that must be looked up.
pub fn join_segment_paths<T: TraversalModel, C: ConstraintModel, L: LabelModel>(
    paths: &Vec<Vec<(EdgeListId, EdgeId)>>,
    si: &SearchInstance<T, C, L>,
) -> (r: Result<Vec<(EdgeListId, EdgeId)>, MapMatchingError>)
    requires
        si.estimation_index() < si.traversal_models@.len(),
    ensures
        r is Ok <==> paths@.len() > 0 && forall|i: int| 1 <= i < paths@.len()
            ==> #[trigger] junction_known(si.graph, paths@[i - 1]@, paths@[i]@),
        r matches Err(e) ==> e is InternalError,
        r matches Ok(p) ==> exists|gaps: Seq<Seq<(EdgeListId, EdgeId)>>| {
            &&& gaps.len() == paths@.len()
            &&& gaps[0].len() == 0
            &&& forall|i: int| 1 <= i < paths@.len() ==> #[trigger] gap_between(*si, paths@[i - 1]@, paths@[i]@, gaps[i])
            &&& p@ == dedup_consecutive(interleaved(gaps, path_views(paths@), paths@.len()))
        },
{
    if paths.len() == 0 {
        return Err(MapMatchingError::InternalError("empty segments to join".to_owned()));
    }
    let ghost ps = path_views(paths@);
    let mut total: Vec<(EdgeListId, EdgeId)> = Vec::new();
    let ghost mut gaps: Seq<Seq<(EdgeListId, EdgeId)>> = Seq::empty();
    let mut i: usize = 0;
    while i < paths.len()
        invariant
            0 <= i <= paths@.len(),
            ps == path_views(paths@),
            si.estimation_index() < si.traversal_models@.len(),
            gaps.len() == i,
            i > 0 ==> gaps[0].len() == 0,
            forall|j: int| 1 <= j < i ==> #[trigger] gap_between(*si, paths@[j - 1]@, paths@[j]@, gaps[j]),
            forall|j: int| 1 <= j < i ==> #[trigger] junction_known(si.graph, paths@[j - 1]@, paths@[j]@),
            total@ == interleaved(gaps, ps, i as nat),
        decreases paths@.len() - i,
    {
        let ghost mut gap: Seq<(EdgeListId, EdgeId)> = Seq::empty();
        let ghost before = total@;
        if i > 0 {
            let prev_path = &paths[i - 1];
            let curr_path = &paths[i];
            if prev_path.len() > 0 && curr_path.len() > 0 {
                let prev_end = prev_path[prev_path.len() - 1];
                let curr_start = curr_path[0];
                let same = prev_end.0.0 == curr_start.0.0 && prev_end.1.0 == curr_start.1.0;
                if !same {
                    let prev_dst_v = match si.graph.dst_vertex_id(&prev_end.0, &prev_end.1) {
                        Ok(v) => v,
                        Err(_) => {
                            proof { assert(!junction_known(si.graph, paths@[i - 1]@, paths@[i as int]@)); }
                            return Err(MapMatchingError::InternalError("edge not found where segment paths meet".to_owned()));
                        },
                    };
                    let curr_src_v = match si.graph.src_vertex_id(&curr_start.0, &curr_start.1) {
                        Ok(v) => v,
                        Err(_) => {
                            proof { assert(!junction_known(si.graph, paths@[i - 1]@, paths@[i as int]@)); }
                            return Err(MapMatchingError::InternalError("edge not found where segment paths meet".to_owned()));
                        },
                    };
                    if prev_dst_v.0 != curr_src_v.0 {
                        let gap_path = shortest_edge_path(prev_end, curr_start, si);
                        if gap_path.len() > 2 {
                            push_range(&mut total, &gap_path, 1, gap_path.len() - 1);
                        }
                        proof {
                            gap = inner_edges(gap_path@);
                            assert(edge_path_between(*si, prev_end, curr_start, gap_path@));
                        }
                    }
                }
            }
            proof {
                assert(gap_between(*si, paths@[i - 1]@, paths@[i as int]@, gap));
                assert(junction_known(si.graph, paths@[i - 1]@, paths@[i as int]@));
            }
        }
        proof {
            if gap.len() == 0 {
                assert(before + gap =~= before);
            }
            assert(total@ =~= before + gap);
        }
        let ghost mid = total@;
        push_range(&mut total, &paths[i], 0, paths[i].len());
        proof {
            assert(paths@[i as int]@.subrange(0, paths@[i as int]@.len() as int) =~= paths@[i as int]@);
            assert(ps[i as int] == paths@[i as int]@);
            let old_gaps = gaps;
            gaps = gaps.push(gap);
            lemma_interleaved_prefix(gaps, old_gaps, ps, i as nat);
            assert(interleaved(gaps, ps, (i + 1) as nat) == interleaved(gaps, ps, i as nat) + gaps[i as int] + ps[i as int]);
            assert(total@ =~= interleaved(gaps, ps, (i + 1) as nat));
        }
        i = i + 1;
    }
    let r = dedup_edge_path(&total);
    Ok(r)
}

proof fn lemma_interleaved_prefix(
    a: Seq<Seq<(EdgeListId, EdgeId)>>,
    b: Seq<Seq<(EdgeListId, EdgeId)>>,
    ps: Seq<Seq<(EdgeListId, EdgeId)>>,
    n: nat,
)
    requires
        n <= b.len(),
        b.len() <= a.len(),
        forall|j: int| 0 <= j < b.len() ==> a[j] == b[j],
    ensures
        interleaved(a, ps, n) == interleaved(b, ps, n),
    decreases n,
{
    if n > 0 {
        lemma_interleaved_prefix(a, b, ps, (n - 1) as nat);
    }
}

} // verus!
