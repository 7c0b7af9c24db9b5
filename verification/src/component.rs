use vstd::prelude::*;
use crate::network::{Graph, NetworkError, VertexId};
use crate::reachability::{
    is_walk, lemma_reaches_avoiding_less, lemma_reaches_avoiding_refl, lemma_reaches_avoiding_step, lemma_reaches_avoiding_step_end, lemma_reaches_refl, lemma_reaches_trans,
    lemma_same_scc_trans, lemma_succ_reaches, lemma_walk_splits, lemma_walk_within_scc, pred, reaches,
    reaches_avoiding, same_scc, succ, tables_agree,
};
use std::collections::HashSet;

verus! {

broadcast use vstd::std_specs::hash::group_hash_axioms;

/// The vertex indices below `n`.
pub open spec fn indices_below(n: nat) -> Set<usize> {
    Set::new(|x: usize| x < n)
}

/// The members of `s` below `n`.
pub open spec fn members_below(s: Set<usize>, n: nat) -> Set<usize> {
    s.filter(|x: usize| x < n)
}

/// The vertex indices of a sequence of vertex ids.
pub open spec fn index_set(s: Seq<VertexId>) -> Set<usize> {
    Set::new(|x: usize| exists|i: int| 0 <= i < s.len() && #[trigger] s[i].0 == x)
}

proof fn lemma_index_set_concat(a: Seq<VertexId>, b: Seq<VertexId>)
    ensures
        index_set(a + b) == index_set(a).union(index_set(b)),
{
    assert forall|x: usize| index_set(a + b).contains(x) == index_set(a).union(index_set(b)).contains(x) by {
        if index_set(a + b).contains(x) {
            let i = choose|i: int| 0 <= i < (a + b).len() && #[trigger] (a + b)[i].0 == x;
            if i < a.len() {
                assert(a[i].0 == x);
            } else {
                assert(b[i - a.len()].0 == x);
            }
        }
        if index_set(a).contains(x) {
            let i = choose|i: int| 0 <= i < a.len() && #[trigger] a[i].0 == x;
            assert((a + b)[i].0 == x);
        }
        if index_set(b).contains(x) {
            let i = choose|i: int| 0 <= i < b.len() && #[trigger] b[i].0 == x;
            assert((a + b)[i + a.len()].0 == x);
        }
    }
    assert(index_set(a + b) =~= index_set(a).union(index_set(b)));
}

proof fn lemma_index_set_empty()
    ensures
        index_set(Seq::<VertexId>::empty()) == Set::<usize>::empty(),
{
    assert(index_set(Seq::<VertexId>::empty()) =~= Set::<usize>::empty());
}

proof fn lemma_index_set_single(v: VertexId)
    ensures
        index_set(seq![v]) == set![v.0],
{
    assert(seq![v][0].0 == v.0);
    assert(index_set(seq![v]) =~= set![v.0]);
}

/// What a successful depth-first search from `vertex` did to `visited` and `stack`:
/// the stack grew by the newly visited vertices, each once and none visited before,
/// every one of them a vertex of the graph; `visited` grew by exactly these;
/// nothing changed if `vertex` was visited already, and otherwise `vertex` was pushed last.
pub open spec fn dfs_effect(
    n: nat,
    vertex: VertexId,
    old_visited: Set<usize>,
    old_stack: Seq<VertexId>,
    new_visited: Set<usize>,
    new_stack: Seq<VertexId>,
) -> bool {
    let added = new_stack.skip(old_stack.len() as int);
    &&& new_stack.len() >= old_stack.len()
    &&& new_stack.take(old_stack.len() as int) == old_stack
    &&& added.no_duplicates()
    &&& forall|i: int| 0 <= i < added.len() ==> !old_visited.contains((#[trigger] added[i]).0) && added[i].0 < n
    &&& new_visited == old_visited.union(index_set(added))
    &&& new_visited.contains(vertex.0)
    &&& old_visited.contains(vertex.0) ==> added.len() == 0
    &&& !old_visited.contains(vertex.0) ==> added.len() > 0 && added.last() == vertex
}

/// What a depth-first search from `v` adds: every added vertex is reached from `v` by a
/// walk through no vertex visited before, and every successor of an added vertex ends
/// up visited.
pub open spec fn dfs_reach(g: Graph, v: usize, old_visited: Set<usize>, new_visited: Set<usize>, added: Seq<VertexId>) -> bool {
    &&& forall|j: int| 0 <= j < added.len() ==> reaches_avoiding(g, v, (#[trigger] added[j]).0, old_visited)
    &&& forall|a: usize, x: usize| #![trigger index_set(added).contains(a), succ(g, a, x)]
        index_set(added).contains(a) && succ(g, a, x) ==> new_visited.contains(x)
}

proof fn lemma_walk_stays_added(g: Graph, p: Seq<usize>, v0: Set<usize>, vis: Set<usize>, added: Seq<VertexId>, k: int)
    requires
        is_walk(g, p),
        index_set(added).contains(p[0]),
        forall|i: int| 0 <= i < p.len() ==> !v0.contains(#[trigger] p[i]),
        forall|a: usize, x: usize| #![trigger index_set(added).contains(a), succ(g, a, x)]
            index_set(added).contains(a) && succ(g, a, x) ==> vis.contains(x),
        vis == v0.union(index_set(added)),
        0 <= k < p.len(),
    ensures
        index_set(added).contains(p[k]),
    decreases k,
{
    if k > 0 {
        lemma_walk_stays_added(g, p, v0, vis, added, k - 1);
        assert(succ(g, p[k - 1], p[(k - 1) + 1]));
        assert(vis.contains(p[k]));
        assert(!v0.contains(p[k]));
    }
}

/// A depth-first search from `v`, not visited before, adds exactly the vertices that
/// `v` reaches through no vertex visited before.
pub proof fn law_dfs_adds_reachable(g: Graph, v: usize, v0: Set<usize>, vis: Set<usize>, added: Seq<VertexId>)
    requires
        dfs_reach(g, v, v0, vis, added),
        vis == v0.union(index_set(added)),
        !v0.contains(v),
        index_set(added).contains(v),
    ensures
        forall|y: usize| index_set(added).contains(y) <==> reaches_avoiding(g, v, y, v0),
{
    assert forall|y: usize| index_set(added).contains(y) <==> reaches_avoiding(g, v, y, v0) by {
        if index_set(added).contains(y) {
            let j = choose|j: int| 0 <= j < added.len() && #[trigger] added[j].0 == y;
            assert(reaches_avoiding(g, v, added[j].0, v0));
        }
        if reaches_avoiding(g, v, y, v0) {
            let p = choose|p: Seq<usize>| #[trigger] is_walk(g, p) && p[0] == v && p.last() == y
                && forall|i: int| 0 <= i < p.len() ==> !v0.contains(#[trigger] p[i]);
            lemma_walk_stays_added(g, p, v0, vis, added, p.len() - 1);
        }
    }
}

proof fn lemma_walk_back_added(g: Graph, p: Seq<usize>, v0: Set<usize>, vis: Set<usize>, added: Seq<VertexId>, k: int)
    requires
        is_walk(g, p),
        tables_agree(g),
        index_set(added).contains(p.last()),
        forall|i: int| 0 <= i < p.len() ==> !v0.contains(#[trigger] p[i]),
        forall|a: usize, u: usize| index_set(added).contains(a) && #[trigger] pred(g, u, a) ==> vis.contains(u),
        vis == v0.union(index_set(added)),
        0 <= k < p.len(),
    ensures
        index_set(added).contains(p[k]),
    decreases p.len() - k,
{
    if k < p.len() - 1 {
        lemma_walk_back_added(g, p, v0, vis, added, k + 1);
        assert(succ(g, p[k], p[k + 1]));
        assert(pred(g, p[k], p[k + 1]));
        assert(vis.contains(p[k]));
    }
}

/// Over a graph whose incoming entries list exactly its outgoing ones, a depth-first
/// search along incoming edges from `v`, not visited before, adds exactly the vertices
/// that reach `v` through no vertex visited before.
pub proof fn law_reverse_dfs_adds_reaching(g: Graph, v: usize, v0: Set<usize>, vis: Set<usize>, added: Seq<VertexId>)
    requires
        tables_agree(g),
        forall|j: int| 0 <= j < added.len() ==> reaches_avoiding(g, (#[trigger] added[j]).0, v, v0),
        reverse_closed(g, v, vis, added),
        vis == v0.union(index_set(added)),
        index_set(added).contains(v),
    ensures
        forall|y: usize| index_set(added).contains(y) <==> reaches_avoiding(g, y, v, v0),
{
    assert forall|y: usize| index_set(added).contains(y) <==> reaches_avoiding(g, y, v, v0) by {
        if index_set(added).contains(y) {
            let j = choose|j: int| 0 <= j < added.len() && #[trigger] added[j].0 == y;
            assert(reaches_avoiding(g, added[j].0, v, v0));
        }
        if reaches_avoiding(g, y, v, v0) {
            let p = choose|p: Seq<usize>| #[trigger] is_walk(g, p) && p[0] == y && p.last() == v
                && forall|i: int| 0 <= i < p.len() ==> !v0.contains(#[trigger] p[i]);
            lemma_walk_back_added(g, p, v0, vis, added, 0);
        }
    }
}

/// Whether vertex `x` was added at position `i` of `added` or before it.
pub open spec fn added_by(added: Seq<VertexId>, i: int, x: usize) -> bool {
    exists|j: int| 0 <= j <= i && #[trigger] added[j].0 == x
}

/// Whether vertex `x` was added after position `i` of `added` and reaches the vertex
/// added there through no vertex of `visited`: a search still open when that one finished.
pub open spec fn open_above(g: Graph, visited: Set<usize>, added: Seq<VertexId>, i: int, x: usize) -> bool {
    exists|j: int| i < j < added.len() && #[trigger] added[j].0 == x && reaches_avoiding(g, x, added[i].0, visited)
}

/// Whether the vertices `added` by a depth-first search that started with `visited` were
/// added in post-order: each successor of an added vertex was visited before, or was
/// added no later than it, or was added after it by a search still open when it finished.
pub open spec fn post_ordered(g: Graph, visited: Set<usize>, added: Seq<VertexId>) -> bool {
    forall|i: int, x: usize| 0 <= i < added.len() && #[trigger] succ(g, added[i].0, x)
        ==> visited.contains(x) || added_by(added, i, x) || open_above(g, visited, added, i, x)
}

/// `post_ordered` while the search from `v` is still open: a successor may also be `v`
/// itself, reaching the added vertex through no vertex of `visited`.
pub open spec fn post_ordered_under(g: Graph, visited: Set<usize>, v: usize, added: Seq<VertexId>) -> bool {
    forall|i: int, x: usize| 0 <= i < added.len() && #[trigger] succ(g, added[i].0, x)
        ==> visited.contains(x) || added_by(added, i, x) || open_above(g, visited, added, i, x)
            || (x == v && reaches_avoiding(g, v, added[i].0, visited))
}

/// Whether vertex `x` was added after position `i` of `added` and is reached from the
/// vertex added there through no vertex of `visited`: a search along incoming edges still
/// open when that one finished.
pub open spec fn open_above_rev(g: Graph, visited: Set<usize>, added: Seq<VertexId>, i: int, x: usize) -> bool {
    exists|j: int| i < j < added.len() && #[trigger] added[j].0 == x && reaches_avoiding(g, added[i].0, x, visited)
}

/// Whether the vertices `added` by a depth-first search along incoming edges that started
/// with `visited` were added in post-order: each vertex with an entry into an added vertex
/// was visited before, or was added no later than it, or was added after it by a search
/// still open when it finished.
pub open spec fn post_ordered_rev(g: Graph, visited: Set<usize>, added: Seq<VertexId>) -> bool {
    forall|i: int, x: usize| 0 <= i < added.len() && #[trigger] pred(g, x, added[i].0)
        ==> visited.contains(x) || added_by(added, i, x) || open_above_rev(g, visited, added, i, x)
}

/// `post_ordered_rev` while the search from `v` is still open: a vertex with an entry
/// may also be `v` itself, reached from the added vertex through no vertex of `visited`.
pub open spec fn post_ordered_rev_under(g: Graph, visited: Set<usize>, v: usize, added: Seq<VertexId>) -> bool {
    forall|i: int, x: usize| 0 <= i < added.len() && #[trigger] pred(g, x, added[i].0)
        ==> visited.contains(x) || added_by(added, i, x) || open_above_rev(g, visited, added, i, x)
            || (x == v && reaches_avoiding(g, added[i].0, v, visited))
}

/// The number of vertex indices below `n` that are not in `visited`, as counted by a search.
pub open spec fn dfs_measure(n: nat, visited: Set<usize>) -> int {
    n - members_below(visited, n).len()
}

proof fn lemma_indices_below(n: nat)
    requires
        n <= usize::MAX + 1,
    ensures
        indices_below(n).finite(),
        indices_below(n).len() == n,
    decreases n,
{
    if n == 0 {
        assert(indices_below(0) =~= Set::<usize>::empty());
    } else {
        lemma_indices_below((n - 1) as nat);
        assert(indices_below(n) =~= indices_below((n - 1) as nat).insert((n - 1) as usize));
    }
}

proof fn lemma_members_below(s: Set<usize>, n: nat)
    requires
        n <= usize::MAX + 1,
    ensures
        members_below(s, n).finite(),
        members_below(s, n).len() <= n,
{
    lemma_indices_below(n);
    vstd::set_lib::lemma_len_subset(members_below(s, n), indices_below(n));
}



/// Every vertex on the stack (finished by a search) has each of its successors visited.
pub open spec fn successors_visited(g: Graph, visited: Set<usize>, stack: Seq<VertexId>) -> bool {
    forall|b: usize, x: usize| index_set(stack).contains(b) && #[trigger] succ(g, b, x) ==> visited.contains(x)
}

/// Whether `y` was finished no later than some vertex of the component of `x`: both
/// are on the stack, that vertex at or above `y`.
pub open spec fn finished_no_later(g: Graph, stack: Seq<VertexId>, x: usize, y: usize) -> bool {
    exists|i: int, j: int| #![trigger stack[i], stack[j]]
        0 <= j <= i < stack.len() && stack[j].0 == y && same_scc(g, x, stack[i].0)
}

/// Whether some visited vertex that is not finished yet lies in the component of `x`.
pub open spec fn unfinished_in_scc(g: Graph, visited: Set<usize>, stack: Seq<VertexId>, x: usize) -> bool {
    exists|u: usize| visited.contains(u) && !index_set(stack).contains(u) && #[trigger] same_scc(g, x, u)
}

/// The order in which a depth-first search finishes vertices: whatever a finished vertex
/// `x` reaches was finished no later than some vertex of the component of `x`, unless
/// that component still holds a vertex the search has not finished.
#[verifier::opaque]
pub open spec fn finish_order(g: Graph, visited: Set<usize>, stack: Seq<VertexId>) -> bool {
    forall|x: usize, y: usize| index_set(stack).contains(x) && #[trigger] reaches(g, x, y)
        ==> finished_no_later(g, stack, x, y) || unfinished_in_scc(g, visited, stack, x)
}

/// What a depth-first search from `v` may start from: the finished vertices are visited,
/// their successors visited, their finishing order as above, and every visited vertex
/// that is not finished (on the path of searches leading to `v`) reaches `v`.
pub open spec fn dfs_ready(g: Graph, v: usize, visited: Set<usize>, stack: Seq<VertexId>) -> bool {
    &&& index_set(stack).subset_of(visited)
    &&& successors_visited(g, visited, stack)
    &&& finish_order(g, visited, stack)
    &&& forall|u: usize| visited.contains(u) && !index_set(stack).contains(u) ==> #[trigger] reaches(g, u, v)
}

proof fn lemma_finish_order_more_visited(g: Graph, visited: Set<usize>, more: Set<usize>, stack: Seq<VertexId>)
    requires
        finish_order(g, visited, stack),
        visited.subset_of(more),
    ensures
        finish_order(g, more, stack),
{
    reveal(finish_order);
    assert forall|x: usize, y: usize| index_set(stack).contains(x) && #[trigger] reaches(g, x, y)
        implies finished_no_later(g, stack, x, y) || unfinished_in_scc(g, more, stack, x) by {
        if !finished_no_later(g, stack, x, y) {
            let u = choose|u: usize| visited.contains(u) && !index_set(stack).contains(u) && #[trigger] same_scc(g, x, u);
            assert(more.contains(u));
        }
    }
}

/// A walk that starts at a finished vertex stays among finished vertices, or first
/// leaves them at a visited vertex that its start reaches.
proof fn lemma_first_unfinished(g: Graph, p: Seq<usize>, finished: Set<usize>, visited: Set<usize>)
    requires
        is_walk(g, p),
        finished.contains(p[0]),
        forall|b: usize, x: usize| finished.contains(b) && #[trigger] succ(g, b, x) ==> visited.contains(x),
    ensures
        (forall|k: int| 0 <= k < p.len() ==> finished.contains(#[trigger] p[k]))
        || (exists|m: int| 0 < m < p.len() && visited.contains(#[trigger] p[m]) && !finished.contains(p[m])
            && reaches(g, p[0], p[m])),
    decreases p.len(),
{
    if p.len() > 1 {
        let q = p.drop_last();
        assert(is_walk(g, q)) by {
            assert forall|i: int| 0 <= i < q.len() - 1 implies #[trigger] succ(g, q[i], q[i + 1]) by {
                assert(q[i] == p[i] && q[i + 1] == p[i + 1]);
                assert(succ(g, p[i], p[i + 1]));
            }
        }
        lemma_first_unfinished(g, q, finished, visited);
        if exists|m: int| 0 < m < q.len() && visited.contains(#[trigger] q[m]) && !finished.contains(q[m])
            && reaches(g, q[0], q[m]) {
            let m = choose|m: int| 0 < m < q.len() && visited.contains(#[trigger] q[m]) && !finished.contains(q[m])
                && reaches(g, q[0], q[m]);
            assert(p[m] == q[m]);
        } else {
            let l = p.len() - 1;
            assert(finished.contains(q[l - 1]));
            let i = l - 1;
            assert(succ(g, p[i], p[i + 1]));
            assert(i + 1 == l);
            assert(visited.contains(p[l]));
            if !finished.contains(p[l]) {
                lemma_walk_splits(g, p, l);
            } else {
                assert forall|k: int| 0 <= k < p.len() implies finished.contains(#[trigger] p[k]) by {
                    if k < l {
                        assert(p[k] == q[k]);
                    }
                }
            }
        }
    }
}

/// Finishing `v`, once all its successors are visited, keeps the finishing order.
proof fn lemma_finish_keeps_order(g: Graph, visited: Set<usize>, stack: Seq<VertexId>, v: VertexId)
    requires
        visited.contains(v.0),
        !index_set(stack).contains(v.0),
        index_set(stack).subset_of(visited),
        successors_visited(g, visited, stack),
        forall|x: usize| #[trigger] succ(g, v.0, x) ==> visited.contains(x),
        finish_order(g, visited, stack),
        forall|u: usize| visited.contains(u) && !index_set(stack).contains(u) && u != v.0 ==> #[trigger] reaches(g, u, v.0),
    ensures
        successors_visited(g, visited, stack.push(v)),
        finish_order(g, visited, stack.push(v)),
{
    let s2 = stack.push(v);
    lemma_index_set_concat(stack, seq![v]);
    lemma_index_set_single(v);
    assert(s2 =~= stack + seq![v]);
    let fin = index_set(s2);
    assert(fin == index_set(stack).insert(v.0));
    reveal(finish_order);
    assert forall|x: usize, y: usize| fin.contains(x) && #[trigger] reaches(g, x, y)
        implies finished_no_later(g, s2, x, y) || unfinished_in_scc(g, visited, s2, x) by {
        if same_scc(g, x, v.0) {
            lemma_reaches_trans(g, v.0, x, y);
            reveal(reaches);
            let p = choose|p: Seq<usize>| #[trigger] is_walk(g, p) && p[0] == v.0 && p.last() == y;
            lemma_first_unfinished(g, p, fin, visited);
            if forall|k: int| 0 <= k < p.len() ==> fin.contains(#[trigger] p[k]) {
                assert(fin.contains(p.last()));
                if y == v.0 {
                    let i = s2.len() - 1;
                    assert(s2[i].0 == y);
                    assert(finished_no_later(g, s2, x, y));
                } else {
                    assert(index_set(stack).contains(y));
                    let j = choose|j: int| 0 <= j < stack.len() && #[trigger] stack[j].0 == y;
                    let i = s2.len() - 1;
                    assert(s2[j] == stack[j]);
                    assert(s2[i].0 == v.0);
                    assert(finished_no_later(g, s2, x, y));
                }
            } else {
                let m = choose|m: int| 0 < m < p.len() && visited.contains(#[trigger] p[m]) && !fin.contains(p[m])
                    && reaches(g, p[0], p[m]);
                let u = p[m];
                assert(u != v.0);
                assert(reaches(g, u, v.0));
                assert(same_scc(g, v.0, u));
                lemma_same_scc_trans(g, x, v.0, u);
                assert(unfinished_in_scc(g, visited, s2, x));
            }
        } else {
            lemma_reaches_refl(g, v.0);
            assert(x != v.0);
            assert(index_set(stack).contains(x));
            if finished_no_later(g, stack, x, y) {
                let (i, j) = choose|i: int, j: int| #![trigger stack[i], stack[j]]
                    0 <= j <= i < stack.len() && stack[j].0 == y && same_scc(g, x, stack[i].0);
                assert(s2[i] == stack[i] && s2[j] == stack[j]);
                assert(finished_no_later(g, s2, x, y));
            } else {
                let u = choose|u: usize| visited.contains(u) && !index_set(stack).contains(u) && #[trigger] same_scc(g, x, u);
                assert(u != v.0);
                assert(!fin.contains(u));
                assert(unfinished_in_scc(g, visited, s2, x));
            }
        }
    }
}

/// Conducts a depth-first search from `vertex` along outgoing edges, recording every
/// newly reached vertex in `visited` and pushing each one on `stack` once all vertices
/// reachable from it are done (post-order).
/// Errors if the search meets a vertex or edge that the graph does not hold.
/// Started in a state that [`dfs_ready`] describes, it keeps the finishing order of
/// [`finish_order`] and leaves every successor of a finished vertex visited.
pub fn depth_first_search(
    graph: &Graph,
    vertex: VertexId,
    visited: &mut HashSet<usize>,
    stack: &mut Vec<VertexId>,
) -> (r: Result<(), NetworkError>)
    ensures
        r is Ok ==> dfs_effect(graph.adj@.len(), vertex, old(visited)@, old(stack)@, final(visited)@, final(stack)@),
        graph.wf() && vertex.0 < graph.num_vertices() ==> r is Ok,
        graph.wf() && vertex.0 < graph.num_vertices() ==> dfs_reach(*graph, vertex.0, old(visited)@, final(visited)@,
            final(stack)@.skip(old(stack)@.len() as int)),
        graph.wf() && vertex.0 < graph.num_vertices() && !old(visited)@.contains(vertex.0) ==> forall|y: usize|
            #[trigger] index_set(final(stack)@.skip(old(stack)@.len() as int)).contains(y) <==> reaches_avoiding(*graph, vertex.0, y, old(visited)@),
        graph.wf() && vertex.0 < graph.num_vertices() ==> post_ordered(*graph, old(visited)@, final(stack)@.skip(old(stack)@.len() as int)),
        graph.wf() && vertex.0 < graph.num_vertices() && dfs_ready(*graph, vertex.0, old(visited)@, old(stack)@)
            ==> successors_visited(*graph, final(visited)@, final(stack)@) && finish_order(*graph, final(visited)@, final(stack)@),
    decreases dfs_measure(graph.adj@.len(), old(visited)@),
{
    let ghost n = graph.adj@.len();
    let _n = graph.adj.len();
    let ghost v0 = visited@;
    let ghost s0 = stack@;
    let ghost ready = graph.wf() && vertex.0 < graph.num_vertices() && dfs_ready(*graph, vertex.0, v0, s0);
    proof { lemma_members_below(v0, n); }
    if visited.contains(&vertex.0) {
        proof {
            assert(stack@.skip(s0.len() as int) =~= Seq::<VertexId>::empty());
            lemma_index_set_empty();
            assert(stack@.take(s0.len() as int) =~= s0);
            assert(visited@ =~= v0.union(index_set(Seq::<VertexId>::empty())));
        }
        return Ok(());
    }
    visited.insert(vertex.0);
    let edges = graph.out_edges(&vertex)?;
    proof {
        lemma_members_below(visited@, n);
        assert(members_below(visited@, n) =~= members_below(v0, n).insert(vertex.0));
        assert(stack@.skip(s0.len() as int) =~= Seq::<VertexId>::empty());
        lemma_index_set_empty();
        if ready {
            assert(v0.subset_of(visited@));
            lemma_finish_order_more_visited(*graph, v0, visited@, stack@);
            assert(!index_set(stack@).contains(vertex.0));
        }
    }
    let mut i: usize = 0;
    while i < edges.len()
        invariant
            n == graph.adj@.len(),
            v0 == old(visited)@,
            n <= usize::MAX,
            vertex.0 < n,
            !v0.contains(vertex.0),
            members_below(v0, n).len() < members_below(visited@, n).len(),
            members_below(v0, n).len() <= n,
            stack@.len() >= s0.len(),
            stack@.take(s0.len() as int) == s0,
            stack@.skip(s0.len() as int).no_duplicates(),
            forall|j: int| 0 <= j < stack@.skip(s0.len() as int).len() ==> !v0.contains((#[trigger] stack@.skip(s0.len() as int)[j]).0)
                && stack@.skip(s0.len() as int)[j].0 < n && stack@.skip(s0.len() as int)[j] != vertex,
            visited@ == v0.insert(vertex.0).union(index_set(stack@.skip(s0.len() as int))),
            0 <= i <= edges@.len(),
            graph.wf() ==> edges@ == graph.out_entries(vertex),
            ready == (graph.wf() && vertex.0 < graph.num_vertices() && dfs_ready(*graph, vertex.0, v0, s0)),
            ready ==> index_set(stack@).subset_of(visited@),
            ready ==> successors_visited(*graph, visited@, stack@),
            ready ==> finish_order(*graph, visited@, stack@),
            ready ==> !index_set(stack@).contains(vertex.0),
            ready ==> forall|u: usize| visited@.contains(u) && !index_set(stack@).contains(u) && u != vertex.0
                ==> #[trigger] reaches(*graph, u, vertex.0),
            ready ==> forall|j: int| 0 <= j < i ==> visited@.contains(#[trigger] edges@[j].2.0),
            graph.wf() ==> forall|j: int| 0 <= j < i ==> visited@.contains(#[trigger] edges@[j].2.0),
            graph.wf() ==> dfs_reach(*graph, vertex.0, v0, visited@, stack@.skip(s0.len() as int)),
            graph.wf() ==> post_ordered_under(*graph, v0, vertex.0, stack@.skip(s0.len() as int)),
        decreases edges@.len() - i,
    {
        let entry = edges[i];
        let dst = graph.dst_vertex_id(&entry.0, &entry.1)?;
        let ghost v1 = visited@;
        let ghost s1 = stack@;
        proof {
            lemma_members_below(v1, n);
            assert(members_below(v0, n).subset_of(members_below(v1, n)));
            assert(0 <= dfs_measure(n, v1) < dfs_measure(n, v0));
            assert(graph.adj@.len() == n);
            if graph.wf() {
                assert(graph.adj@[vertex.0 as int]@[i as int] == entry);
                assert(entry.2 == dst);
                assert(succ(*graph, vertex.0, dst.0));
                assert(dst.0 < graph.num_vertices());
            }
            if ready {
                assert(graph.adj@[vertex.0 as int]@[i as int] == entry);
                assert(entry.2 == dst);
                assert(succ(*graph, vertex.0, dst.0));
                lemma_succ_reaches(*graph, vertex.0, dst.0);
                assert forall|u: usize| visited@.contains(u) && !index_set(stack@).contains(u)
                    implies #[trigger] reaches(*graph, u, dst.0) by {
                    if u != vertex.0 {
                        lemma_reaches_trans(*graph, u, vertex.0, dst.0);
                    }
                }
                assert(dst.0 < graph.num_vertices());
                assert(dfs_ready(*graph, dst.0, v1, s1));
            }
        }
        depth_first_search(graph, dst, visited, stack)?;
        proof {
            let a0 = s1.skip(s0.len() as int);
            let a1 = stack@.skip(s1.len() as int);
            let a = stack@.skip(s0.len() as int);
            assert(stack@.take(s1.len() as int) == s1);
            assert(a =~= a0 + a1);
            assert(stack@.take(s0.len() as int) =~= s0) by {
                assert(stack@.take(s0.len() as int) =~= s1.take(s0.len() as int));
            }
            assert forall|j: int| 0 <= j < a.len() implies !v0.contains((#[trigger] a[j]).0) && a[j].0 < n && a[j] != vertex by {
                if j >= a0.len() {
                    assert(a[j] == a1[j - a0.len()]);
                    assert(!v1.contains(a1[j - a0.len()].0));
                } else {
                    assert(a[j] == a0[j]);
                }
            }
            assert forall|x: int, y: int| 0 <= x < y < a.len() implies a[x] != a[y] by {
                if x < a0.len() && y >= a0.len() {
                    assert(a[y] == a1[y - a0.len()]);
                    assert(!v1.contains(a1[y - a0.len()].0));
                    assert(a[x] == a0[x]);
                    assert(index_set(a0).contains(a0[x].0));
                } else if x >= a0.len() {
                    assert(a[x] == a1[x - a0.len()]);
                    assert(a[y] == a1[y - a0.len()]);
                } else {
                    assert(a[x] == a0[x]);
                    assert(a[y] == a0[y]);
                }
            }
            lemma_index_set_concat(a0, a1);
            assert(visited@ =~= v0.insert(vertex.0).union(index_set(a)));
            if graph.wf() {
                assert(v1.subset_of(visited@));
                assert(v0.subset_of(v1));
                assert forall|j: int| 0 <= j < a.len() implies reaches_avoiding(*graph, vertex.0, (#[trigger] a[j]).0, v0) by {
                    if j >= a0.len() {
                        assert(a[j] == a1[j - a0.len()]);
                        assert(reaches_avoiding(*graph, dst.0, a1[j - a0.len()].0, v1));
                        lemma_reaches_avoiding_step(*graph, vertex.0, dst.0, a[j].0, v0, v1);
                    } else {
                        assert(a[j] == a0[j]);
                    }
                }
                assert forall|x: usize, y: usize| index_set(a).contains(x) && succ(*graph, x, y) implies visited@.contains(y) by {
                    if index_set(a0).contains(x) {
                        assert(v1.contains(y));
                    } else {
                        assert(index_set(a1).contains(x));
                    }
                }
                assert forall|j: int| 0 <= j < i + 1 implies visited@.contains(#[trigger] edges@[j].2.0) by {
                    if j == i {
                        assert(edges@[j] == entry);
                    }
                }
            }
            lemma_members_below(visited@, n);
            assert(members_below(v1, n).subset_of(members_below(visited@, n)));
            vstd::set_lib::lemma_len_subset(members_below(v1, n), members_below(visited@, n));
            if ready {
                lemma_index_set_concat(s1, a1);
                assert(stack@ =~= s1 + a1);
                assert(visited@ =~= v1.union(index_set(a1)));
                assert forall|u: usize| visited@.contains(u) && !index_set(stack@).contains(u) && u != vertex.0
                    implies #[trigger] reaches(*graph, u, vertex.0) by {
                    assert(v1.contains(u));
                    assert(!index_set(s1).contains(u));
                }
                assert(!index_set(stack@).contains(vertex.0)) by {
                    if index_set(a1).contains(vertex.0) {
                        let j = choose|j: int| 0 <= j < a1.len() && #[trigger] a1[j].0 == vertex.0;
                        assert(!v1.contains(a1[j].0));
                    }
                }
                assert forall|j: int| 0 <= j < i + 1 implies visited@.contains(#[trigger] edges@[j].2.0) by {
                    if j == i {
                        assert(edges@[j] == entry);
                    }
                }
            }
        }
        i = i + 1;
    }
    let ghost s2 = stack@;
    proof {
        if ready {
            assert forall|x: usize| #[trigger] succ(*graph, vertex.0, x) implies visited@.contains(x) by {
                let j = choose|j: int| 0 <= j < graph.adj@[vertex.0 as int]@.len() && (#[trigger] graph.adj@[vertex.0 as int]@[j]).2.0 == x;
                assert(edges@[j] == graph.adj@[vertex.0 as int]@[j]);
            }
            lemma_finish_keeps_order(*graph, visited@, s2, vertex);
        }
    }
    stack.push(vertex);
    proof {
        let a = stack@.skip(s0.len() as int);
        let a2 = s2.skip(s0.len() as int);
        assert(a =~= a2.push(vertex));
        assert(stack@.take(s0.len() as int) =~= s2.take(s0.len() as int));
        assert(a =~= a2 + seq![vertex]);
        lemma_index_set_concat(a2, seq![vertex]);
        lemma_index_set_single(vertex);
        assert(visited@ =~= v0.union(index_set(a)));
        if graph.wf() {
            assert forall|j: int| 0 <= j < a.len() implies reaches_avoiding(*graph, vertex.0, (#[trigger] a[j]).0, v0) by {
                if j == a.len() - 1 {
                    lemma_reaches_avoiding_refl(*graph, vertex.0, v0);
                } else {
                    assert(a[j] == a2[j]);
                }
            }
            assert forall|x: usize, y: usize| index_set(a).contains(x) && succ(*graph, x, y) implies visited@.contains(y) by {
                if index_set(a2).contains(x) {
                } else {
                    assert(x == vertex.0);
                    let j = choose|j: int| 0 <= j < graph.adj@[vertex.0 as int]@.len() && (#[trigger] graph.adj@[vertex.0 as int]@[j]).2.0 == y;
                    assert(edges@[j] == graph.adj@[vertex.0 as int]@[j]);
                }
            }
        }
        if graph.wf() {
            assert(a[a.len() - 1] == vertex);
            assert(index_set(a).contains(vertex.0));
            law_dfs_adds_reachable(*graph, vertex.0, v0, visited@, a);
        }
        assert forall|x: int, y: int| 0 <= x < y < a.len() implies a[x] != a[y] by {
            if y == a.len() - 1 {
                assert(a[x] == a2[x]);
            } else {
                assert(a[x] == a2[x]);
                assert(a[y] == a2[y]);
            }
        }
    }
    Ok(())
}

/// What a search along incoming edges from `v` added to its stack: every added vertex
/// reaches `v`, and every vertex with an entry into an added vertex is visited.
pub open spec fn reverse_closed(g: Graph, v: usize, visited: Set<usize>, added: Seq<VertexId>) -> bool {
    &&& forall|a: usize| index_set(added).contains(a) ==> #[trigger] reaches(g, a, v)
    &&& forall|a: usize, u: usize| index_set(added).contains(a) && #[trigger] pred(g, u, a) ==> visited.contains(u)
}

/// Conducts a depth-first search from `vertex` along incoming edges, recording every
/// newly reached vertex in `visited` and pushing each one on `stack` once all vertices
/// that reach it are done (post-order).
/// Errors if the search meets a vertex or edge that the graph does not hold.
/// Over a graph whose incoming entries list exactly its outgoing ones, every vertex it
/// adds reaches `vertex`, and every vertex with an entry into an added one is visited.
pub fn reverse_depth_first_search(
    graph: &Graph,
    vertex: VertexId,
    visited: &mut HashSet<usize>,
    stack: &mut Vec<VertexId>,
) -> (r: Result<(), NetworkError>)
    ensures
        r is Ok ==> dfs_effect(graph.rev@.len(), vertex, old(visited)@, old(stack)@, final(visited)@, final(stack)@),
        graph.wf() && vertex.0 < graph.num_vertices() ==> r is Ok,
        graph.wf() && tables_agree(*graph) && vertex.0 < graph.num_vertices()
            ==> reverse_closed(*graph, vertex.0, final(visited)@, final(stack)@.skip(old(stack)@.len() as int)),
        graph.wf() && tables_agree(*graph) && vertex.0 < graph.num_vertices() ==> forall|j: int|
            0 <= j < final(stack)@.skip(old(stack)@.len() as int).len()
            ==> reaches_avoiding(*graph, (#[trigger] final(stack)@.skip(old(stack)@.len() as int)[j]).0, vertex.0, old(visited)@),
        graph.wf() && tables_agree(*graph) && vertex.0 < graph.num_vertices() && !old(visited)@.contains(vertex.0) ==> forall|y: usize|
            #[trigger] index_set(final(stack)@.skip(old(stack)@.len() as int)).contains(y) <==> reaches_avoiding(*graph, y, vertex.0, old(visited)@),
        graph.wf() && tables_agree(*graph) && vertex.0 < graph.num_vertices()
            ==> post_ordered_rev(*graph, old(visited)@, final(stack)@.skip(old(stack)@.len() as int)),
    decreases dfs_measure(graph.rev@.len(), old(visited)@),
{
    let ghost n = graph.rev@.len();
    let _n = graph.rev.len();
    let ghost v0 = visited@;
    let ghost s0 = stack@;
    let ghost ready = graph.wf() && tables_agree(*graph) && vertex.0 < graph.num_vertices();
    proof { lemma_members_below(v0, n); }
    if visited.contains(&vertex.0) {
        proof {
            assert(stack@.skip(s0.len() as int) =~= Seq::<VertexId>::empty());
            lemma_index_set_empty();
            assert(stack@.take(s0.len() as int) =~= s0);
            assert(visited@ =~= v0.union(index_set(Seq::<VertexId>::empty())));
        }
        return Ok(());
    }
    visited.insert(vertex.0);
    let edges = graph.in_edges(&vertex)?;
    proof {
        lemma_members_below(visited@, n);
        assert(members_below(visited@, n) =~= members_below(v0, n).insert(vertex.0));
        assert(stack@.skip(s0.len() as int) =~= Seq::<VertexId>::empty());
        lemma_index_set_empty();
    }
    let mut i: usize = 0;
    while i < edges.len()
        invariant
            n == graph.rev@.len(),
            v0 == old(visited)@,
            n <= usize::MAX,
            vertex.0 < n,
            !v0.contains(vertex.0),
            members_below(v0, n).len() < members_below(visited@, n).len(),
            members_below(v0, n).len() <= n,
            stack@.len() >= s0.len(),
            stack@.take(s0.len() as int) == s0,
            stack@.skip(s0.len() as int).no_duplicates(),
            forall|j: int| 0 <= j < stack@.skip(s0.len() as int).len() ==> !v0.contains((#[trigger] stack@.skip(s0.len() as int)[j]).0)
                && stack@.skip(s0.len() as int)[j].0 < n && stack@.skip(s0.len() as int)[j] != vertex,
            visited@ == v0.insert(vertex.0).union(index_set(stack@.skip(s0.len() as int))),
            0 <= i <= edges@.len(),
            graph.wf() ==> edges@ == graph.in_entries(vertex),
            ready == (graph.wf() && tables_agree(*graph) && vertex.0 < graph.num_vertices()),
            ready ==> reverse_closed(*graph, vertex.0, visited@, stack@.skip(s0.len() as int)),
            ready ==> forall|j: int| 0 <= j < stack@.skip(s0.len() as int).len()
                ==> reaches_avoiding(*graph, (#[trigger] stack@.skip(s0.len() as int)[j]).0, vertex.0, v0),
            ready ==> post_ordered_rev_under(*graph, v0, vertex.0, stack@.skip(s0.len() as int)),
            ready ==> forall|j: int| 0 <= j < i ==> visited@.contains(#[trigger] edges@[j].2.0),
        decreases edges@.len() - i,
    {
        let entry = edges[i];
        let dst = graph.src_vertex_id(&entry.0, &entry.1)?;
        let ghost v1 = visited@;
        let ghost s1 = stack@;
        proof {
            lemma_members_below(v1, n);
            assert(members_below(v0, n).subset_of(members_below(v1, n)));
            assert(0 <= dfs_measure(n, v1) < dfs_measure(n, v0));
            assert(graph.rev@.len() == n);
            if ready {
                assert(graph.rev@[vertex.0 as int]@[i as int] == entry);
                assert(entry.2 == dst);
                assert(pred(*graph, dst.0, vertex.0));
                assert(succ(*graph, dst.0, vertex.0));
                lemma_succ_reaches(*graph, dst.0, vertex.0);
                assert(dst.0 < graph.num_vertices());
            }
        }
        reverse_depth_first_search(graph, dst, visited, stack)?;
        proof {
            let a0 = s1.skip(s0.len() as int);
            let a1 = stack@.skip(s1.len() as int);
            let a = stack@.skip(s0.len() as int);
            assert(stack@.take(s1.len() as int) == s1);
            assert(a =~= a0 + a1);
            assert(stack@.take(s0.len() as int) =~= s0) by {
                assert(stack@.take(s0.len() as int) =~= s1.take(s0.len() as int));
            }
            assert forall|j: int| 0 <= j < a.len() implies !v0.contains((#[trigger] a[j]).0) && a[j].0 < n && a[j] != vertex by {
                if j >= a0.len() {
                    assert(a[j] == a1[j - a0.len()]);
                    assert(!v1.contains(a1[j - a0.len()].0));
                } else {
                    assert(a[j] == a0[j]);
                }
            }
            assert forall|x: int, y: int| 0 <= x < y < a.len() implies a[x] != a[y] by {
                if x < a0.len() && y >= a0.len() {
                    assert(a[y] == a1[y - a0.len()]);
                    assert(!v1.contains(a1[y - a0.len()].0));
                    assert(a[x] == a0[x]);
                    assert(index_set(a0).contains(a0[x].0));
                } else if x >= a0.len() {
                    assert(a[x] == a1[x - a0.len()]);
                    assert(a[y] == a1[y - a0.len()]);
                } else {
                    assert(a[x] == a0[x]);
                    assert(a[y] == a0[y]);
                }
            }
            lemma_index_set_concat(a0, a1);
            assert(visited@ =~= v0.insert(vertex.0).union(index_set(a)));
            lemma_members_below(visited@, n);
            assert(members_below(v1, n).subset_of(members_below(visited@, n)));
            vstd::set_lib::lemma_len_subset(members_below(v1, n), members_below(visited@, n));
            if ready {
                assert(v1.subset_of(visited@));
                assert(v0.subset_of(v1));
                assert forall|j: int| 0 <= j < a.len() implies reaches_avoiding(*graph, (#[trigger] a[j]).0, vertex.0, v0) by {
                    if j >= a0.len() {
                        assert(a[j] == a1[j - a0.len()]);
                        assert(reaches_avoiding(*graph, a1[j - a0.len()].0, dst.0, v1));
                        lemma_reaches_avoiding_step_end(*graph, a[j].0, dst.0, vertex.0, v0, v1);
                    } else {
                        assert(a[j] == a0[j]);
                    }
                }
                assert forall|x: usize| index_set(a).contains(x) implies #[trigger] reaches(*graph, x, vertex.0) by {
                    if index_set(a1).contains(x) {
                        lemma_reaches_trans(*graph, x, dst.0, vertex.0);
                    } else {
                        assert(index_set(a0).contains(x));
                    }
                }
                assert forall|x: usize, u: usize| index_set(a).contains(x) && #[trigger] pred(*graph, u, x)
                    implies visited@.contains(u) by {
                    if !index_set(a1).contains(x) {
                        assert(index_set(a0).contains(x));
                        assert(v1.contains(u));
                    }
                }
                assert forall|j: int| 0 <= j < i + 1 implies visited@.contains(#[trigger] edges@[j].2.0) by {
                    if j == i {
                        assert(edges@[j] == entry);
                    } else {
                        assert(v1.contains(edges@[j].2.0));
                    }
                }
            }
        }
        i = i + 1;
    }
    let ghost s2 = stack@;
    stack.push(vertex);
    proof {
        let a = stack@.skip(s0.len() as int);
        let a2 = s2.skip(s0.len() as int);
        assert(a =~= a2.push(vertex));
        assert(stack@.take(s0.len() as int) =~= s2.take(s0.len() as int));
        assert(a =~= a2 + seq![vertex]);
        lemma_index_set_concat(a2, seq![vertex]);
        lemma_index_set_single(vertex);
        assert(visited@ =~= v0.union(index_set(a)));
        assert forall|x: int, y: int| 0 <= x < y < a.len() implies a[x] != a[y] by {
            if y == a.len() - 1 {
                assert(a[x] == a2[x]);
            } else {
                assert(a[x] == a2[x]);
                assert(a[y] == a2[y]);
            }
        }
        if ready {
            lemma_index_set_concat(a2, seq![vertex]);
            lemma_index_set_single(vertex);
            lemma_reaches_refl(*graph, vertex.0);
            assert forall|x: usize| index_set(a).contains(x) implies #[trigger] reaches(*graph, x, vertex.0) by {
                if x != vertex.0 {
                    assert(index_set(a2).contains(x));
                }
            }
            assert forall|x: usize, u: usize| index_set(a).contains(x) && #[trigger] pred(*graph, u, x)
                implies visited@.contains(u) by {
                if x == vertex.0 {
                    let k = choose|k: int| 0 <= k < graph.rev@[x as int]@.len() && (#[trigger] graph.rev@[x as int]@[k]).2.0 == u;
                    assert(edges@[k] == graph.rev@[x as int]@[k]);
                } else {
                    assert(index_set(a2).contains(x));
                }
            }
            assert forall|j: int| 0 <= j < a.len() implies reaches_avoiding(*graph, (#[trigger] a[j]).0, vertex.0, v0) by {
                if j == a.len() - 1 {
                    lemma_reaches_avoiding_refl(*graph, vertex.0, v0);
                } else {
                    assert(a[j] == a2[j]);
                }
            }
            assert(a[a.len() - 1] == vertex);
            assert(index_set(a).contains(vertex.0));
            law_reverse_dfs_adds_reaching(*graph, vertex.0, v0, visited@, a);
        }
    }
    Ok(())
}

/// Whether the vertex `x` occurs in one of the components.
pub open spec fn in_components(c: Seq<Vec<VertexId>>, x: usize) -> bool {
    exists|i: int, a: int| 0 <= i < c.len() && 0 <= a < c[i]@.len() && #[trigger] c[i]@[a].0 == x
}

/// Whether the components split the vertices `0..n`: each component is non-empty, every
/// entry is a vertex below `n`, no vertex occurs twice, and every vertex occurs.
pub open spec fn is_vertex_partition(c: Seq<Vec<VertexId>>, n: nat) -> bool {
    &&& forall|i: int| 0 <= i < c.len() ==> (#[trigger] c[i])@.len() > 0
    &&& forall|i: int, a: int| 0 <= i < c.len() && 0 <= a < c[i]@.len() ==> (#[trigger] c[i]@[a]).0 < n
    &&& forall|i: int, a: int, j: int, b: int|
        0 <= i < c.len() && 0 <= j < c.len() && 0 <= a < c[i]@.len() && 0 <= b < c[j]@.len() && (i != j || a != b)
        ==> (#[trigger] c[i]@[a]) != (#[trigger] c[j]@[b])
    &&& forall|x: usize| x < n ==> #[trigger] in_components(c, x)
}

/// The vertex indices occurring in the components.
pub open spec fn component_indices(c: Seq<Vec<VertexId>>) -> Set<usize> {
    Set::new(|x: usize| in_components(c, x))
}

proof fn lemma_component_indices_empty(c: Seq<Vec<VertexId>>)
    requires
        c.len() == 0,
    ensures
        component_indices(c) == Set::<usize>::empty(),
{
    assert(component_indices(c) =~= Set::<usize>::empty());
}

proof fn lemma_component_indices_push(c: Seq<Vec<VertexId>>, v: Vec<VertexId>)
    ensures
        component_indices(c.push(v)) == component_indices(c).union(index_set(v@)),
{
    let c2 = c.push(v);
    assert forall|x: usize| component_indices(c2).contains(x) == component_indices(c).union(index_set(v@)).contains(x) by {
        if in_components(c2, x) {
            let (i, a) = choose|i: int, a: int| 0 <= i < c2.len() && 0 <= a < c2[i]@.len() && #[trigger] c2[i]@[a].0 == x;
            if i < c.len() {
                assert(c[i]@[a].0 == x);
            } else {
                assert(v@[a].0 == x);
            }
        }
        if in_components(c, x) {
            let (i, a) = choose|i: int, a: int| 0 <= i < c.len() && 0 <= a < c[i]@.len() && #[trigger] c[i]@[a].0 == x;
            assert(c2[i]@[a].0 == x);
        }
        if index_set(v@).contains(x) {
            let a = choose|a: int| 0 <= a < v@.len() && #[trigger] v@[a].0 == x;
            assert(c2[c.len() as int]@[a].0 == x);
        }
    }
    assert(component_indices(c2) =~= component_indices(c).union(index_set(v@)));
}

/// Whether `c` is a strongly connected component of the graph: its vertices reach each
/// other, and every vertex that shares the component of one of them is among them.
pub open spec fn is_scc(g: Graph, c: Seq<VertexId>) -> bool {
    &&& c.len() > 0
    &&& forall|a: int, b: int| 0 <= a < c.len() && 0 <= b < c.len() ==> #[trigger] same_scc(g, c[a].0, c[b].0)
    &&& forall|a: int, u: usize| 0 <= a < c.len() && #[trigger] same_scc(g, c[a].0, u) ==> index_set(c).contains(u)
}

/// A walk that ends in `added`, avoids `before`, and whose vertices with an entry into an
/// added vertex are all in `before` or `added`, lies in `added`.
proof fn lemma_walk_into_added(g: Graph, p: Seq<usize>, before: Set<usize>, added: Set<usize>)
    requires
        is_walk(g, p),
        tables_agree(g),
        added.contains(p.last()),
        forall|k: int| 0 <= k < p.len() ==> !before.contains(#[trigger] p[k]),
        forall|a: usize, u: usize| added.contains(a) && #[trigger] pred(g, u, a) ==> before.contains(u) || added.contains(u),
    ensures
        forall|k: int| 0 <= k < p.len() ==> added.contains(#[trigger] p[k]),
    decreases p.len(),
{
    if p.len() > 1 {
        let q = p.drop_first();
        assert(is_walk(g, q)) by {
            assert forall|i: int| 0 <= i < q.len() - 1 implies #[trigger] succ(g, q[i], q[i + 1]) by {
                assert(q[i] == p[i + 1] && q[i + 1] == p[i + 2]);
                assert(succ(g, p[i + 1], p[(i + 1) + 1]));
            }
        }
        assert(q.last() == p.last());
        assert forall|k: int| 0 <= k < q.len() implies !before.contains(#[trigger] q[k]) by {
            assert(q[k] == p[k + 1]);
        }
        lemma_walk_into_added(g, q, before, added);
        assert(added.contains(q[0]));
        let z: int = 0;
        assert(succ(g, p[z], p[z + 1]));
        assert(pred(g, p[0], p[1]));
        assert(!before.contains(p[0]));
        assert forall|k: int| 0 <= k < p.len() implies added.contains(#[trigger] p[k]) by {
            if k > 0 {
                assert(p[k] == q[k - 1]);
            }
        }
    }
}

/// What a search along incoming edges collects from the vertex at position `len` of the
/// finishing order, when every vertex above it is visited and the visited vertices are
/// closed under sharing a component: exactly the component of that vertex.
proof fn lemma_component_scc(
    g: Graph,
    order: Seq<VertexId>,
    len: int,
    before: Set<usize>,
    after: Set<usize>,
    comp: Seq<VertexId>,
    n: nat,
)
    requires
        g.wf(),
        tables_agree(g),
        n == g.num_vertices(),
        0 <= len < order.len(),
        order.no_duplicates(),
        forall|x: usize| x < n ==> index_set(order).contains(x),
        forall|x: usize, y: usize| index_set(order).contains(x) && #[trigger] reaches(g, x, y)
            ==> finished_no_later(g, order, x, y),
        forall|p: int| len < p < order.len() ==> before.contains(#[trigger] order[p].0),
        forall|x: usize, u: usize| before.contains(x) && #[trigger] same_scc(g, x, u) ==> before.contains(u),
        !before.contains(order[len].0),
        dfs_effect(g.rev@.len(), order[len], before, Seq::empty(), after, comp),
        reverse_closed(g, order[len].0, after, comp),
    ensures
        is_scc(g, comp),
        forall|x: usize, u: usize| after.contains(x) && #[trigger] same_scc(g, x, u) ==> after.contains(u),
{
    let r = order[len].0;
    assert(comp.skip(0) =~= comp);
    assert(comp.take(0) =~= Seq::<VertexId>::empty());
    let added = index_set(comp);
    assert(after == before.union(added));
    assert(comp.last() == order[len]);
    assert(added.contains(r)) by {
        assert(comp[comp.len() - 1].0 == r);
    }
    // every collected vertex shares the component of r
    assert forall|x: usize| added.contains(x) implies #[trigger] same_scc(g, x, r) by {
        assert(reaches(g, x, r));
        let ix = choose|ix: int| 0 <= ix < comp.len() && #[trigger] comp[ix].0 == x;
        assert(!before.contains(comp[ix].0));
        assert(x < n);
        assert(index_set(order).contains(x));
        assert(finished_no_later(g, order, x, r));
        let (i, j) = choose|i: int, j: int| #![trigger order[i], order[j]]
            0 <= j <= i < order.len() && order[j].0 == r && same_scc(g, x, order[i].0);
        assert(order[j] == order[len]);
        assert(j == len);
        if i > len {
            assert(before.contains(order[i].0));
            assert(same_scc(g, order[i].0, x));
            assert(before.contains(x));
        }
    }
    // every vertex sharing the component of r was collected
    assert forall|u: usize| #[trigger] same_scc(g, r, u) implies added.contains(u) by {
        reveal(reaches);
        let p = choose|p: Seq<usize>| #[trigger] is_walk(g, p) && p[0] == u && p.last() == r;
        assert forall|k: int| 0 <= k < p.len() implies !before.contains(#[trigger] p[k]) by {
            lemma_walk_within_scc(g, p, k);
            lemma_same_scc_trans(g, r, u, p[k]);
            if before.contains(p[k]) {
                assert(before.contains(r));
            }
        }
        assert forall|a: usize, w: usize| added.contains(a) && #[trigger] pred(g, w, a)
            implies before.contains(w) || added.contains(w) by {
            assert(after.contains(w));
        }
        lemma_walk_into_added(g, p, before, added);
        assert(added.contains(p[0]));
    }
    assert(comp.len() > 0);
    assert forall|a: int, b: int| 0 <= a < comp.len() && 0 <= b < comp.len()
        implies #[trigger] same_scc(g, comp[a].0, comp[b].0) by {
        assert(added.contains(comp[a].0));
        assert(added.contains(comp[b].0));
        assert(same_scc(g, comp[a].0, r));
        assert(same_scc(g, comp[b].0, r));
        lemma_same_scc_trans(g, comp[a].0, r, comp[b].0);
    }
    assert forall|a: int, u: usize| 0 <= a < comp.len() && #[trigger] same_scc(g, comp[a].0, u)
        implies index_set(comp).contains(u) by {
        assert(added.contains(comp[a].0));
        lemma_same_scc_trans(g, r, comp[a].0, u);
    }
    assert forall|x: usize, u: usize| after.contains(x) && #[trigger] same_scc(g, x, u) implies after.contains(u) by {
        if added.contains(x) {
            lemma_same_scc_trans(g, r, x, u);
        }
    }
}

/// Finds the strongly connected components of a directed graph (Kosaraju's algorithm):
/// a depth-first search over outgoing edges orders the vertices, then searches over
/// incoming edges, in reverse of that order, collect one component each.
/// For a well-formed graph the result splits the vertex set into non-empty components;
/// when, moreover, its incoming entries list exactly its outgoing ones, each of them is a
/// strongly connected component: its vertices reach each other, and no other vertex
/// reaches and is reached by them.
pub fn all_strongly_connected_componenets(graph: &Graph) -> (r: Result<Vec<Vec<VertexId>>, NetworkError>)
    ensures
        graph.wf() ==> (r matches Ok(c) && is_vertex_partition(c@, graph.num_vertices())),
        graph.wf() && tables_agree(*graph) ==> (r matches Ok(c)
            && forall|i: int| 0 <= i < c@.len() ==> is_scc(*graph, #[trigger] c@[i]@)),
{
    let ghost n = graph.num_vertices();
    let ghost ok = graph.wf() && tables_agree(*graph);
    let mut visited: HashSet<usize> = HashSet::new();
    let mut container: Vec<VertexId> = Vec::new();
    let mut result: Vec<Vec<VertexId>> = Vec::new();
    let ids = graph.vertex_ids();
    let mut k: usize = 0;
    proof {
        lemma_index_set_empty();
        reveal(finish_order);
    }
    while k < ids.len()
        invariant
            n == graph.num_vertices(),
            ids@.len() == n,
            forall|i: int| 0 <= i < ids@.len() ==> (#[trigger] ids@[i]).0 == i,
            0 <= k <= ids@.len(),
            graph.wf() ==> visited@ == index_set(container@),
            graph.wf() ==> container@.no_duplicates(),
            graph.wf() ==> forall|i: int| 0 <= i < container@.len() ==> (#[trigger] container@[i]).0 < n,
            graph.wf() ==> forall|x: usize| x < k ==> visited@.contains(x),
            graph.wf() ==> successors_visited(*graph, visited@, container@),
            graph.wf() ==> finish_order(*graph, visited@, container@),
        decreases ids@.len() - k,
    {
        let ghost c0 = container@;
        let ghost v0 = visited@;
        proof {
            if graph.wf() {
                assert(dfs_ready(*graph, ids@[k as int].0, v0, c0));
            }
        }
        depth_first_search(graph, ids[k], &mut visited, &mut container)?;
        proof {
            if graph.wf() {
                let added = container@.skip(c0.len() as int);
                assert(container@ =~= c0 + added);
                lemma_index_set_concat(c0, added);
                assert forall|a: int, b: int| 0 <= a < b < container@.len() implies container@[a] != container@[b] by {
                    if a < c0.len() && b >= c0.len() {
                        assert(container@[b] == added[b - c0.len()]);
                        assert(!v0.contains(added[b - c0.len()].0));
                        assert(index_set(c0).contains(c0[a].0));
                    } else if a >= c0.len() {
                        assert(container@[a] == added[a - c0.len()]);
                        assert(container@[b] == added[b - c0.len()]);
                    }
                }
                assert forall|i: int| 0 <= i < container@.len() implies (#[trigger] container@[i]).0 < n by {
                    if i >= c0.len() {
                        assert(container@[i] == added[i - c0.len()]);
                    }
                }
            }
        }
        k = k + 1;
    }
    proof {
        if graph.wf() {
            assert forall|x: usize| x < n implies index_set(container@).contains(x) by {
                assert(visited@.contains(x));
            }
        }
        lemma_component_indices_empty(result@);
    }
    let ghost order = container@;
    proof {
        if graph.wf() {
            reveal(finish_order);
            assert forall|x: usize, y: usize| index_set(order).contains(x) && #[trigger] reaches(*graph, x, y)
                implies finished_no_later(*graph, order, x, y) by {
                if !finished_no_later(*graph, order, x, y) {
                    let u = choose|u: usize| visited@.contains(u) && !index_set(order).contains(u) && #[trigger] same_scc(*graph, x, u);
                }
            }
        }
    }
    visited.clear();
    proof {
        if ok {
            assert(order.take(order.len() as int) =~= order);
        }
    }
    loop
        invariant
            ok == (graph.wf() && tables_agree(*graph)),
            container@.len() <= order.len(),
            container@ == order.take(container@.len() as int),
            ok ==> order.no_duplicates(),
            ok ==> forall|x: usize| x < n ==> index_set(order).contains(x),
            ok ==> forall|i: int| 0 <= i < order.len() ==> (#[trigger] order[i]).0 < n,
            ok ==> forall|x: usize, y: usize| index_set(order).contains(x) && #[trigger] reaches(*graph, x, y)
                ==> finished_no_later(*graph, order, x, y),
            ok ==> forall|p: int| container@.len() <= p < order.len() ==> visited@.contains(#[trigger] order[p].0),
            ok ==> forall|i: int| 0 <= i < result@.len() ==> is_scc(*graph, #[trigger] result@[i]@),
            ok ==> forall|x: usize, u: usize| visited@.contains(x) && #[trigger] same_scc(*graph, x, u) ==> visited@.contains(u),
            n == graph.num_vertices(),
            graph.wf() ==> container@.no_duplicates(),
            graph.wf() ==> forall|i: int| 0 <= i < container@.len() ==> (#[trigger] container@[i]).0 < n,
            graph.wf() ==> forall|x: usize| x < n ==> visited@.contains(x) || index_set(container@).contains(x),
            graph.wf() ==> visited@ == component_indices(result@),
            graph.wf() ==> forall|i: int| 0 <= i < result@.len() ==> (#[trigger] result@[i])@.len() > 0,
            graph.wf() ==> forall|i: int, a: int| 0 <= i < result@.len() && 0 <= a < result@[i]@.len() ==> (#[trigger] result@[i]@[a]).0 < n,
            graph.wf() ==> forall|i: int, a: int, j: int, b: int|
                0 <= i < result@.len() && 0 <= j < result@.len() && 0 <= a < result@[i]@.len() && 0 <= b < result@[j]@.len() && (i != j || a != b)
                ==> (#[trigger] result@[i]@[a]) != (#[trigger] result@[j]@[b]),
        ensures
            ok ==> forall|i: int| 0 <= i < result@.len() ==> is_scc(*graph, #[trigger] result@[i]@),
            container@.len() == 0,
            graph.wf() ==> forall|x: usize| x < n ==> visited@.contains(x) || index_set(container@).contains(x),
            graph.wf() ==> visited@ == component_indices(result@),
            graph.wf() ==> forall|i: int| 0 <= i < result@.len() ==> (#[trigger] result@[i])@.len() > 0,
            graph.wf() ==> forall|i: int, a: int| 0 <= i < result@.len() && 0 <= a < result@[i]@.len() ==> (#[trigger] result@[i]@[a]).0 < n,
            graph.wf() ==> forall|i: int, a: int, j: int, b: int|
                0 <= i < result@.len() && 0 <= j < result@.len() && 0 <= a < result@[i]@.len() && 0 <= b < result@[j]@.len() && (i != j || a != b)
                ==> (#[trigger] result@[i]@[a]) != (#[trigger] result@[j]@[b]),
        decreases container@.len(),
    {
        let ghost cont0 = container@;
        let vertex_id = match container.pop() {
            None => break,
            Some(v) => v,
        };
        let ghost len = container@.len() as int;
        proof {
            assert(cont0 == container@.push(vertex_id));
            assert(order[len] == cont0[len]);
            assert(vertex_id == order[len]);
            assert(container@ =~= order.take(len));
        }
        proof {
            if graph.wf() {
                assert(cont0 == container@.push(vertex_id));
                assert forall|x: usize| x < n && index_set(cont0).contains(x) && x != vertex_id.0
                    implies index_set(container@).contains(x) by {
                    let i = choose|i: int| 0 <= i < cont0.len() && #[trigger] cont0[i].0 == x;
                    assert(container@[i].0 == x);
                }
                assert(vertex_id.0 < n) by {
                    assert(cont0[cont0.len() - 1] == vertex_id);
                }
            }
        }
        if visited.contains(&vertex_id.0) {
            continue;
        }
        let ghost vis0 = visited@;
        let ghost res0 = result@;
        let mut component: Vec<VertexId> = Vec::new();
        reverse_depth_first_search(graph, vertex_id, &mut visited, &mut component)?;
        proof {
            assert(component@.skip(0) =~= component@);
            if ok {
                lemma_component_scc(*graph, order, len, vis0, visited@, component@, n);
            }
        }
        result.push(component);
        proof {
            if graph.wf() {
                let comp = result@[result@.len() - 1]@;
                assert(comp == component@);
                lemma_component_indices_push(res0, result@[result@.len() - 1]);
                assert(result@ == res0.push(result@[result@.len() - 1]));
                assert forall|i: int| 0 <= i < result@.len() implies (#[trigger] result@[i])@.len() > 0 by {
                    if i < res0.len() {
                        assert(result@[i] == res0[i]);
                    }
                }
                assert forall|i: int, a: int| 0 <= i < result@.len() && 0 <= a < result@[i]@.len()
                    implies (#[trigger] result@[i]@[a]).0 < n by {
                    if i < res0.len() {
                        assert(result@[i] == res0[i]);
                    }
                }
                assert forall|i: int, a: int, j: int, b: int|
                    0 <= i < result@.len() && 0 <= j < result@.len() && 0 <= a < result@[i]@.len() && 0 <= b < result@[j]@.len() && (i != j || a != b)
                    implies (#[trigger] result@[i]@[a]) != (#[trigger] result@[j]@[b]) by {
                    let last = res0.len() as int;
                    if i < last && j < last {
                        assert(result@[i] == res0[i]);
                        assert(result@[j] == res0[j]);
                    } else if i == last && j == last {
                    } else if i == last {
                        assert(result@[j] == res0[j]);
                        assert(in_components(res0, res0[j]@[b].0));
                        assert(vis0.contains(res0[j]@[b].0));
                        assert(!vis0.contains(comp[a].0));
                    } else {
                        assert(result@[i] == res0[i]);
                        assert(in_components(res0, res0[i]@[a].0));
                        assert(vis0.contains(res0[i]@[a].0));
                        assert(!vis0.contains(comp[b].0));
                    }
                }
            }
        }
    }
    proof {
        if graph.wf() {
            assert forall|x: usize| x < n implies #[trigger] in_components(result@, x) by {
                if index_set(container@).contains(x) {
                    let i = choose|i: int| 0 <= i < container@.len() && #[trigger] container@[i].0 == x;
                }
                assert(visited@.contains(x));
            }
        }
    }
    Ok(result)
}

/// Whether `c` is a first longest component of `comps` (empty when there are none).
pub open spec fn is_first_largest(comps: Seq<Vec<VertexId>>, c: Seq<VertexId>) -> bool {
    if comps.len() == 0 {
        c.len() == 0
    } else {
        exists|i: int| 0 <= i < comps.len() && comps[i]@ == c
            && (forall|j: int| 0 <= j < comps.len() ==> (#[trigger] comps[j])@.len() <= c.len())
            && (forall|j: int| 0 <= j < i ==> (#[trigger] comps[j])@.len() < c.len())
    }
}

/// A sequence of distinct vertices has as many vertex indices as entries.
proof fn lemma_index_set_len(s: Seq<VertexId>)
    requires
        s.no_duplicates(),
    ensures
        index_set(s).finite(),
        index_set(s).len() == s.len(),
{
    let m = s.map_values(|v: VertexId| v.0);
    assert forall|i: int, j: int| 0 <= i < m.len() && 0 <= j < m.len() && i != j implies m[i] != m[j] by {
        assert(s[i] != s[j]);
    }
    assert(m.no_duplicates());
    m.unique_seq_to_set();
    assert forall|x: usize| index_set(s).contains(x) <==> m.to_set().contains(x) by {
        if index_set(s).contains(x) {
            let i = choose|i: int| 0 <= i < s.len() && #[trigger] s[i].0 == x;
            assert(m[i] == x);
        }
        if m.to_set().contains(x) {
            let i = choose|i: int| 0 <= i < m.len() && m[i] == x;
            assert(s[i].0 == x);
        }
    }
    assert(index_set(s) =~= m.to_set());
}

/// Two strongly connected components that share a vertex hold the same vertices.
proof fn lemma_scc_unique(g: Graph, s: Seq<VertexId>, t: Seq<VertexId>, a: int, b: int)
    requires
        is_scc(g, s),
        is_scc(g, t),
        0 <= a < s.len(),
        0 <= b < t.len(),
        s[a].0 == t[b].0,
    ensures
        index_set(s) == index_set(t),
{
    assert forall|u: usize| index_set(t).contains(u) implies index_set(s).contains(u) by {
        let j = choose|j: int| 0 <= j < t.len() && #[trigger] t[j].0 == u;
        assert(same_scc(g, t[b].0, t[j].0));
    }
    assert forall|u: usize| index_set(s).contains(u) implies index_set(t).contains(u) by {
        let j = choose|j: int| 0 <= j < s.len() && #[trigger] s[j].0 == u;
        assert(same_scc(g, s[a].0, s[j].0));
    }
    assert(index_set(s) =~= index_set(t));
}

/// Finds the largest strongly connected component of a directed graph: the first
/// component of greatest size found by [`all_strongly_connected_componenets`], whose
/// components it states of the partition it picks from.
pub fn largest_strongly_connected_component(graph: &Graph) -> (r: Result<Vec<VertexId>, NetworkError>)
    ensures
        graph.wf() ==> (r matches Ok(c) && exists|comps: Seq<Vec<VertexId>>|
            is_vertex_partition(comps, graph.num_vertices()) && is_first_largest(comps, c@)
            && (tables_agree(*graph) ==> forall|i: int| 0 <= i < comps.len() ==> is_scc(*graph, #[trigger] comps[i]@))),
        graph.wf() && tables_agree(*graph) && graph.num_vertices() > 0 ==> (r matches Ok(c) && is_scc(*graph, c@)),
        graph.wf() && tables_agree(*graph) ==> (r matches Ok(c) && forall|s: Seq<VertexId>|
            #[trigger] is_scc(*graph, s) && s.no_duplicates() && (forall|a: int| 0 <= a < s.len() ==> (#[trigger] s[a]).0 < graph.num_vertices())
            ==> s.len() <= c@.len()),
{
    let mut components = all_strongly_connected_componenets(graph)?;
    let ghost comps = components@;
    if components.len() == 0 {
        proof {
            if graph.wf() && graph.num_vertices() > 0 {
                assert(in_components(comps, 0usize));
            }
            if graph.wf() && tables_agree(*graph) {
                assert forall|sc: Seq<VertexId>|
                    #[trigger] is_scc(*graph, sc) && sc.no_duplicates() && (forall|a: int| 0 <= a < sc.len() ==> (#[trigger] sc[a]).0 < graph.num_vertices())
                    implies sc.len() <= 0 by {
                    assert(sc[0].0 < graph.num_vertices());
                    assert(in_components(comps, sc[0].0));
                }
            }
        }
        return Ok(Vec::new());
    }
    let mut best: usize = 0;
    let mut best_len: usize = components[0].len();
    let mut i: usize = 1;
    while i < components.len()
        invariant
            components@ == comps,
            comps.len() > 0,
            1 <= i <= comps.len(),
            best < i,
            best_len == comps[best as int]@.len(),
            forall|j: int| 0 <= j < i ==> (#[trigger] comps[j])@.len() <= best_len,
            forall|j: int| 0 <= j < best ==> (#[trigger] comps[j])@.len() < best_len,
        decreases comps.len() - i,
    {
        if components[i].len() > best_len {
            best = i;
            best_len = components[i].len();
        }
        i = i + 1;
    }
    let largest = components.swap_remove(best);
    proof {
        assert(largest@ == comps[best as int]@);
        if graph.wf() && tables_agree(*graph) {
            assert(is_scc(*graph, comps[best as int]@));
            assert forall|sc: Seq<VertexId>|
                #[trigger] is_scc(*graph, sc) && sc.no_duplicates() && (forall|a: int| 0 <= a < sc.len() ==> (#[trigger] sc[a]).0 < graph.num_vertices())
                implies sc.len() <= largest@.len() by {
                assert(sc[0].0 < graph.num_vertices());
                assert(in_components(comps, sc[0].0));
                let (i, a) = choose|i: int, a: int| 0 <= i < comps.len() && 0 <= a < comps[i]@.len() && #[trigger] comps[i]@[a].0 == sc[0].0;
                assert(is_scc(*graph, comps[i]@));
                lemma_scc_unique(*graph, sc, comps[i]@, 0, a);
                assert forall|x: int, y: int| 0 <= x < comps[i]@.len() && 0 <= y < comps[i]@.len() && x != y
                    implies comps[i]@[x] != comps[i]@[y] by {
                    assert(comps[i]@[x] != comps[i]@[y]);
                }
                assert(comps[i]@.no_duplicates());
                lemma_index_set_len(sc);
                lemma_index_set_len(comps[i]@);
                assert(comps[i]@.len() <= best_len);
            }
        }
    }
    Ok(largest)
}

} // verus!
