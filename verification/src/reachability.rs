use vstd::prelude::*;
use crate::network::Graph;

verus! {

/// Whether the graph has an outgoing adjacency entry from vertex `u` to vertex `v`.
pub open spec fn succ(g: Graph, u: usize, v: usize) -> bool {
    u < g.adj@.len() && exists|j: int| 0 <= j < g.adj@[u as int]@.len() && (#[trigger] g.adj@[u as int]@[j]).2.0 == v
}

/// Whether `p` is a walk along outgoing adjacency entries: a non-empty sequence of
/// vertices, each followed by one it has an entry to.
pub open spec fn is_walk(g: Graph, p: Seq<usize>) -> bool {
    &&& p.len() >= 1
    &&& forall|i: int| 0 <= i < p.len() - 1 ==> #[trigger] succ(g, p[i], p[i + 1])
}

/// Whether a walk leads from vertex `u` to vertex `v`.
#[verifier::opaque]
pub open spec fn reaches(g: Graph, u: usize, v: usize) -> bool {
    exists|p: Seq<usize>| #[trigger] is_walk(g, p) && p[0] == u && p.last() == v
}

/// Whether a walk leads from vertex `u` to vertex `v` through no vertex of `avoid`.
pub open spec fn reaches_avoiding(g: Graph, u: usize, v: usize, avoid: Set<usize>) -> bool {
    exists|p: Seq<usize>| #[trigger] is_walk(g, p) && p[0] == u && p.last() == v
        && forall|i: int| 0 <= i < p.len() ==> !avoid.contains(#[trigger] p[i])
}

/// A vertex outside `avoid` reaches itself avoiding `avoid`.
pub proof fn lemma_reaches_avoiding_refl(g: Graph, u: usize, avoid: Set<usize>)
    requires
        !avoid.contains(u),
    ensures
        reaches_avoiding(g, u, u, avoid),
{
    let p = seq![u];
    assert(is_walk(g, p));
    assert(forall|i: int| 0 <= i < p.len() ==> !avoid.contains(#[trigger] p[i]));
}

/// A step from `u` to `w` outside `avoid`, followed by a walk from `w` avoiding a larger
/// set, is a walk from `u` avoiding `avoid`.
pub proof fn lemma_reaches_avoiding_step(g: Graph, u: usize, w: usize, v: usize, avoid: Set<usize>, more: Set<usize>)
    requires
        !avoid.contains(u),
        succ(g, u, w),
        avoid.subset_of(more),
        reaches_avoiding(g, w, v, more),
    ensures
        reaches_avoiding(g, u, v, avoid),
{
    let p = choose|p: Seq<usize>| #[trigger] is_walk(g, p) && p[0] == w && p.last() == v
        && forall|i: int| 0 <= i < p.len() ==> !more.contains(#[trigger] p[i]);
    let q = seq![u] + p;
    assert(is_walk(g, q)) by {
        assert forall|i: int| 0 <= i < q.len() - 1 implies #[trigger] succ(g, q[i], q[i + 1]) by {
            if i == 0 {
                assert(q[0] == u && q[1] == p[0]);
            } else {
                assert(q[i] == p[i - 1] && q[i + 1] == p[i]);
                assert(succ(g, p[i - 1], p[(i - 1) + 1]));
            }
        }
    }
    assert(q.last() == p.last());
    assert forall|i: int| 0 <= i < q.len() implies !avoid.contains(#[trigger] q[i]) by {
        if i > 0 {
            assert(q[i] == p[i - 1]);
        }
    }
}

/// A walk from `u` to `w` avoiding a larger set, followed by a step from `w` to `v`
/// outside `avoid`, is a walk from `u` to `v` avoiding `avoid`.
pub proof fn lemma_reaches_avoiding_step_end(g: Graph, u: usize, w: usize, v: usize, avoid: Set<usize>, more: Set<usize>)
    requires
        !avoid.contains(v),
        succ(g, w, v),
        avoid.subset_of(more),
        reaches_avoiding(g, u, w, more),
    ensures
        reaches_avoiding(g, u, v, avoid),
{
    let p = choose|p: Seq<usize>| #[trigger] is_walk(g, p) && p[0] == u && p.last() == w
        && forall|i: int| 0 <= i < p.len() ==> !more.contains(#[trigger] p[i]);
    let q = p.push(v);
    assert(is_walk(g, q)) by {
        assert forall|i: int| 0 <= i < q.len() - 1 implies #[trigger] succ(g, q[i], q[i + 1]) by {
            if i == p.len() - 1 {
                assert(q[i] == w && q[i + 1] == v);
            } else {
                assert(q[i] == p[i] && q[i + 1] == p[i + 1]);
            }
        }
    }
    assert(q[0] == u);
    assert forall|i: int| 0 <= i < q.len() implies !avoid.contains(#[trigger] q[i]) by {
        if i < p.len() {
            assert(q[i] == p[i]);
        }
    }
}

/// A walk avoiding a set avoids every smaller set.
pub proof fn lemma_reaches_avoiding_less(g: Graph, u: usize, v: usize, avoid: Set<usize>, more: Set<usize>)
    requires
        avoid.subset_of(more),
        reaches_avoiding(g, u, v, more),
    ensures
        reaches_avoiding(g, u, v, avoid),
{
    let p = choose|p: Seq<usize>| #[trigger] is_walk(g, p) && p[0] == u && p.last() == v
        && forall|i: int| 0 <= i < p.len() ==> !more.contains(#[trigger] p[i]);
    assert(forall|i: int| 0 <= i < p.len() ==> !avoid.contains(#[trigger] p[i]));
}

/// Whether `u` and `v` reach each other: they lie in the same strongly connected component.
pub open spec fn same_scc(g: Graph, u: usize, v: usize) -> bool {
    reaches(g, u, v) && reaches(g, v, u)
}

/// A walk gives reachability between its ends.
pub proof fn lemma_walk_reaches(g: Graph, p: Seq<usize>)
    requires
        is_walk(g, p),
    ensures
        reaches(g, p[0], p.last()),
{
    reveal(reaches);
}

/// Every vertex reaches itself.
pub proof fn lemma_reaches_refl(g: Graph, u: usize)
    ensures
        reaches(g, u, u),
{
    let p = seq![u];
    assert(is_walk(g, p));
    lemma_walk_reaches(g, p);
}

/// An adjacency entry gives reachability.
pub proof fn lemma_succ_reaches(g: Graph, u: usize, v: usize)
    requires
        succ(g, u, v),
    ensures
        reaches(g, u, v),
{
    let p = seq![u, v];
    assert(is_walk(g, p)) by {
        assert forall|i: int| 0 <= i < p.len() - 1 implies #[trigger] succ(g, p[i], p[i + 1]) by {
            assert(i == 0);
        }
    }
    lemma_walk_reaches(g, p);
}

/// Reachability is transitive.
pub proof fn lemma_reaches_trans(g: Graph, u: usize, v: usize, w: usize)
    requires
        reaches(g, u, v),
        reaches(g, v, w),
    ensures
        reaches(g, u, w),
{
    reveal(reaches);
    let p = choose|p: Seq<usize>| #[trigger] is_walk(g, p) && p[0] == u && p.last() == v;
    let q = choose|q: Seq<usize>| #[trigger] is_walk(g, q) && q[0] == v && q.last() == w;
    let r = p + q.drop_first();
    assert(is_walk(g, r)) by {
        assert forall|i: int| 0 <= i < r.len() - 1 implies #[trigger] succ(g, r[i], r[i + 1]) by {
            if i < p.len() - 1 {
                assert(r[i] == p[i] && r[i + 1] == p[i + 1]);
            } else if i == p.len() - 1 {
                assert(r[i] == p.last());
                assert(r[i + 1] == q[1]);
                assert(succ(g, q[0], q[1]));
            } else {
                let k = i - p.len() + 1;
                assert(r[i] == q[k] && r[i + 1] == q[k + 1]);
                assert(succ(g, q[k], q[k + 1]));
            }
        }
    }
    if q.len() == 1 {
        assert(r =~= p);
    } else {
        assert(r.last() == q.last());
    }
    assert(r[0] == u);
}

/// The start of a walk reaches each of its vertices, and each of them reaches its end.
pub proof fn lemma_walk_splits(g: Graph, p: Seq<usize>, k: int)
    requires
        is_walk(g, p),
        0 <= k < p.len(),
    ensures
        reaches(g, p[0], p[k]),
        reaches(g, p[k], p.last()),
{
    let a = p.take(k + 1);
    let b = p.skip(k);
    assert(is_walk(g, a)) by {
        assert forall|i: int| 0 <= i < a.len() - 1 implies #[trigger] succ(g, a[i], a[i + 1]) by {
            assert(a[i] == p[i] && a[i + 1] == p[i + 1]);
        }
    }
    assert(is_walk(g, b)) by {
        assert forall|i: int| 0 <= i < b.len() - 1 implies #[trigger] succ(g, b[i], b[i + 1]) by {
            assert(b[i] == p[i + k] && b[i + 1] == p[i + k + 1]);
        }
    }
    lemma_walk_reaches(g, a);
    lemma_walk_reaches(g, b);
}

/// Every vertex on a walk between two vertices of one component lies in that component.
pub proof fn lemma_walk_within_scc(g: Graph, p: Seq<usize>, k: int)
    requires
        is_walk(g, p),
        0 <= k < p.len(),
        reaches(g, p.last(), p[0]),
    ensures
        same_scc(g, p[0], p[k]),
{
    lemma_walk_splits(g, p, k);
    lemma_reaches_trans(g, p[k], p.last(), p[0]);
}

/// Lying in the same component is symmetric and transitive.
pub proof fn lemma_same_scc_trans(g: Graph, u: usize, v: usize, w: usize)
    requires
        same_scc(g, u, v),
        same_scc(g, v, w),
    ensures
        same_scc(g, u, w),
        same_scc(g, w, u),
{
    lemma_reaches_trans(g, u, v, w);
    lemma_reaches_trans(g, w, v, u);
}

/// Whether the graph has an incoming adjacency entry at vertex `v` from vertex `u`.
pub open spec fn pred(g: Graph, u: usize, v: usize) -> bool {
    v < g.rev@.len() && exists|k: int| 0 <= k < g.rev@[v as int]@.len() && (#[trigger] g.rev@[v as int]@[k]).2.0 == u
}

/// Whether the incoming adjacency entries list exactly the outgoing ones, reversed:
/// `u` has an outgoing entry to `v` just when `v` has an incoming entry from `u`.
pub open spec fn tables_agree(g: Graph) -> bool {
    forall|u: usize, v: usize| #![trigger succ(g, u, v)] #![trigger pred(g, u, v)] succ(g, u, v) <==> pred(g, u, v)
}

} // verus!
