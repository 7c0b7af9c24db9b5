use vstd::prelude::*;
use crate::label::Label;
use crate::network::{Edge, Graph, VertexId};
use crate::model::constraint::ConstraintModel;
use crate::search::a_star::a_star_algorithm::{allowed_by, follows_graph, recorded_cost, roots_at, search_tree_valid, vertex_keyed};
use crate::search::direction::Direction;
use crate::search::edge_traversal::{EdgeTraversal, EdgeTraversalView};
use crate::search::search_tree::{
    backtrack_matches, full_walk_fuel, is_min_cost_label, oriented, path_result_matches, traversal_views, walk,
    SearchTreeError, SearchTreeView, WalkEnd,
};
use crate::search::search_tree_node::SearchTreeNodeView;

verus! {

/// The graph edge a traversal went through (meaningful when the graph holds it).
pub open spec fn edge_of(g: Graph, et: EdgeTraversalView) -> Edge {
    g.edge_at(et.edge_list_id, et.edge_id)->0
}

/// Whether `path` is a connected walk through `g` from vertex `from` to vertex `to`:
/// every traversal is of a graph edge, each edge starts where the previous one ended,
/// the first starts at `from` and the last ends at `to`; an empty path stays at `from == to`.
pub open spec fn connected_walk(g: Graph, path: Seq<EdgeTraversalView>, from: VertexId, to: VertexId) -> bool {
    if path.len() == 0 {
        from == to
    } else {
        &&& forall|i: int| 0 <= i < path.len() ==> g.edge_at((#[trigger] path[i]).edge_list_id, path[i].edge_id) is Some
        &&& edge_of(g, path[0]).src_vertex_id == from
        &&& edge_of(g, path.last()).dst_vertex_id == to
        &&& forall|i: int| 0 <= i < path.len() - 1 ==> edge_of(g, #[trigger] path[i]).dst_vertex_id == edge_of(g, path[i + 1]).src_vertex_id
    }
}

/// The first `n` traversals of a connected walk form a connected walk to the end of the
/// `n`-th edge.
pub proof fn lemma_walk_prefix(g: Graph, p: Seq<EdgeTraversalView>, from: VertexId, to: VertexId, n: int)
    requires
        connected_walk(g, p, from, to),
        1 <= n <= p.len(),
    ensures
        connected_walk(g, p.take(n), from, edge_of(g, p[n - 1]).dst_vertex_id),
{
    let q = p.take(n);
    assert forall|i: int| 0 <= i < q.len() implies q[i] == p[i] by {}
    assert forall|i: int| 0 <= i < q.len() - 1 implies edge_of(g, #[trigger] q[i]).dst_vertex_id == edge_of(g, q[i + 1]).src_vertex_id by {
        assert(q[i] == p[i] && q[i + 1] == p[i + 1]);
    }
    assert forall|i: int| 0 <= i < q.len() implies g.edge_at((#[trigger] q[i]).edge_list_id, q[i].edge_id) is Some by {
        assert(q[i] == p[i]);
    }
}

/// A connected walk from `from` to `mid` followed by one from `mid` to `to` is a
/// connected walk from `from` to `to`.
pub proof fn lemma_walk_concat(g: Graph, a: Seq<EdgeTraversalView>, b: Seq<EdgeTraversalView>, from: VertexId, mid: VertexId, to: VertexId)
    requires
        connected_walk(g, a, from, mid),
        connected_walk(g, b, mid, to),
    ensures
        connected_walk(g, a + b, from, to),
{
    let c = a + b;
    if a.len() == 0 {
        assert(c =~= b);
    } else if b.len() == 0 {
        assert(c =~= a);
    } else {
        assert forall|i: int| 0 <= i < c.len() implies g.edge_at((#[trigger] c[i]).edge_list_id, c[i].edge_id) is Some by {
            if i < a.len() { assert(c[i] == a[i]); } else { assert(c[i] == b[i - a.len()]); }
        }
        assert(c[0] == a[0]);
        assert(c.last() == b.last());
        assert forall|i: int| 0 <= i < c.len() - 1 implies edge_of(g, #[trigger] c[i]).dst_vertex_id == edge_of(g, c[i + 1]).src_vertex_id by {
            if i < a.len() - 1 {
                assert(c[i] == a[i] && c[i + 1] == a[i + 1]);
            } else if i == a.len() - 1 {
                assert(c[i] == a.last() && c[i + 1] == b[0]);
            } else {
                assert(c[i] == b[i - a.len()] && c[i + 1] == b[i + 1 - a.len()]);
            }
        }
    }
}

/// Graphs that hold the same edges have the same connected walks.
pub proof fn lemma_walk_same_graph(g1: Graph, g2: Graph, p: Seq<EdgeTraversalView>, from: VertexId, to: VertexId)
    requires
        g1.same_as(g2),
        connected_walk(g2, p, from, to),
    ensures
        connected_walk(g1, p, from, to),
{
    assert forall|el: crate::network::EdgeListId, e: crate::network::EdgeId| #[trigger] g1.edge_at(el, e) == g2.edge_at(el, e) by {
        if el.0 < g1.edge_lists@.len() {
            assert(g1.edge_lists@[el.0 as int].0@ == g2.edge_lists@[el.0 as int].0@);
        }
    }
    if p.len() > 0 {
        assert(g1.edge_at(p[0].edge_list_id, p[0].edge_id) == g2.edge_at(p[0].edge_list_id, p[0].edge_id));
        assert(g1.edge_at(p.last().edge_list_id, p.last().edge_id) == g2.edge_at(p.last().edge_list_id, p.last().edge_id));
        assert forall|i: int| 0 <= i < p.len() - 1 implies edge_of(g1, #[trigger] p[i]).dst_vertex_id == edge_of(g1, p[i + 1]).src_vertex_id by {
            assert(g1.edge_at(p[i].edge_list_id, p[i].edge_id) == g2.edge_at(p[i].edge_list_id, p[i].edge_id));
            assert(g1.edge_at(p[i + 1].edge_list_id, p[i + 1].edge_id) == g2.edge_at(p[i + 1].edge_list_id, p[i + 1].edge_id));
        }
        assert forall|i: int| 0 <= i < p.len() implies g1.edge_at((#[trigger] p[i]).edge_list_id, p[i].edge_id) is Some by {
            assert(g1.edge_at(p[i].edge_list_id, p[i].edge_id) == g2.edge_at(p[i].edge_list_id, p[i].edge_id));
        }
    }
}

proof fn lemma_append_edge(g: Graph, path: Seq<EdgeTraversalView>, from: VertexId, mid: VertexId, e: EdgeTraversalView, to: VertexId)
    requires
        connected_walk(g, path, from, mid),
        g.edge_at(e.edge_list_id, e.edge_id) is Some,
        edge_of(g, e).src_vertex_id == mid,
        edge_of(g, e).dst_vertex_id == to,
    ensures
        connected_walk(g, path.push(e), from, to),
{
    let p2 = path.push(e);
    assert(p2[path.len() as int] == e);
    assert forall|i: int| 0 <= i < p2.len() - 1 implies edge_of(g, #[trigger] p2[i]).dst_vertex_id == edge_of(g, p2[i + 1]).src_vertex_id by {
        if i < path.len() - 1 {
            assert(p2[i] == path[i] && p2[i + 1] == path[i + 1]);
        } else {
            assert(p2[i] == path.last());
        }
    }
    assert forall|i: int| 0 <= i < p2.len() implies g.edge_at((#[trigger] p2[i]).edge_list_id, p2[i].edge_id) is Some by {
        if i < path.len() {
            assert(p2[i] == path[i]);
        }
    }
}

proof fn lemma_prepend_edge(g: Graph, e: EdgeTraversalView, from: VertexId, mid: VertexId, path: Seq<EdgeTraversalView>, to: VertexId)
    requires
        connected_walk(g, path, mid, to),
        g.edge_at(e.edge_list_id, e.edge_id) is Some,
        edge_of(g, e).src_vertex_id == from,
        edge_of(g, e).dst_vertex_id == mid,
    ensures
        connected_walk(g, seq![e] + path, from, to),
{
    let p2 = seq![e] + path;
    assert(p2[0] == e);
    assert forall|i: int| 0 <= i < p2.len() - 1 implies edge_of(g, #[trigger] p2[i]).dst_vertex_id == edge_of(g, p2[i + 1]).src_vertex_id by {
        if i > 0 {
            assert(p2[i] == path[i - 1] && p2[i + 1] == path[i]);
        } else {
            assert(p2[1] == path[0]);
        }
    }
    assert forall|i: int| 0 <= i < p2.len() implies g.edge_at((#[trigger] p2[i]).edge_list_id, p2[i].edge_id) is Some by {
        if i > 0 {
            assert(p2[i] == path[i - 1]);
        }
    }
    if path.len() > 0 {
        assert(p2.last() == path.last());
    }
}

proof fn lemma_walk_connected(t: SearchTreeView, g: Graph, source: VertexId, label: Label, fuel: nat)
    requires
        follows_graph(t, g),
        roots_at(t, source),
        walk(t.nodes, label, fuel).1 is Root,
    ensures
        t.direction == Direction::Forward ==> connected_walk(g, walk(t.nodes, label, fuel).0.reverse(), source, label.vertex()),
        t.direction == Direction::Reverse ==> connected_walk(g, walk(t.nodes, label, fuel).0, label.vertex(), source),
    decreases fuel,
{
    assert(fuel > 0 && t.nodes.contains_key(label));
    match t.nodes[label] {
        SearchTreeNodeView::Root { .. } => {
            assert(walk(t.nodes, label, fuel).0 =~= Seq::<EdgeTraversalView>::empty());
        },
        SearchTreeNodeView::Branch { incoming_edge, parent, .. } => {
            let rest = walk(t.nodes, parent, (fuel - 1) as nat);
            lemma_walk_connected(t, g, source, parent, (fuel - 1) as nat);
            let w = seq![incoming_edge] + rest.0;
            assert(walk(t.nodes, label, fuel).0 == w);
            if t.direction == Direction::Forward {
                assert(w.reverse() =~= rest.0.reverse().push(incoming_edge));
                lemma_append_edge(g, rest.0.reverse(), source, parent.vertex(), incoming_edge, label.vertex());
            } else {
                lemma_prepend_edge(g, incoming_edge, label.vertex(), parent.vertex(), rest.0, source);
            }
        },
    }
}

/// A route backtracked from the tree of a search from `source` over a well-formed graph
/// is a connected walk through the graph: from `source` to the backtracked vertex for a
/// forward search, from the backtracked vertex to `source` for a reverse search.
pub proof fn law_backtrack_is_connected(
    t: SearchTreeView,
    g: Graph,
    direction: Direction,
    source: VertexId,
    v: VertexId,
    route: Vec<EdgeTraversal>,
)
    requires
        g.wf(),
        search_tree_valid(t, g, direction, source),
        backtrack_matches(t, v, Ok::<Vec<EdgeTraversal>, SearchTreeError>(route)),
    ensures
        direction == Direction::Forward ==> connected_walk(g, traversal_views(route@), source, v),
        direction == Direction::Reverse ==> connected_walk(g, traversal_views(route@), v, source),
{
    let l = choose|l: Label| is_min_cost_label(t, v, l)
        && path_result_matches(t, l, None, Ok::<Vec<EdgeTraversal>, SearchTreeError>(route));
    let w = walk(t.nodes, l, full_walk_fuel(t));
    match w.1 {
        WalkEnd::Root => {
            lemma_walk_connected(t, g, source, l, full_walk_fuel(t));
        },
        WalkEnd::Missing(_) => {},
        WalkEnd::OutOfSteps => {},
    }
}

proof fn lemma_walk_allowed<C: ConstraintModel>(t: SearchTreeView, g: Graph, models: Seq<C>, label: Label, fuel: nat)
    requires
        allowed_by(t, g, models),
    ensures
        forall|k: int| 0 <= k < walk(t.nodes, label, fuel).0.len() ==> {
            let e = #[trigger] walk(t.nodes, label, fuel).0[k];
            g.edge_at(e.edge_list_id, e.edge_id) matches Some(edge)
                && e.edge_list_id.0 < models.len() && !models[e.edge_list_id.0 as int].forbids(edge)
        },
    decreases fuel,
{
    if fuel > 0 && t.nodes.contains_key(label) {
        match t.nodes[label] {
            SearchTreeNodeView::Root { .. } => {},
            SearchTreeNodeView::Branch { incoming_edge, parent, .. } => {
                lemma_walk_allowed(t, g, models, parent, (fuel - 1) as nat);
                let rest = walk(t.nodes, parent, (fuel - 1) as nat);
                let w = walk(t.nodes, label, fuel).0;
                assert(w == seq![incoming_edge] + rest.0);
                assert forall|k: int| 0 <= k < w.len() implies {
                    let e = #[trigger] w[k];
                    g.edge_at(e.edge_list_id, e.edge_id) matches Some(edge)
                        && e.edge_list_id.0 < models.len() && !models[e.edge_list_id.0 as int].forbids(edge)
                } by {
                    if k > 0 {
                        assert(w[k] == rest.0[k - 1]);
                    }
                }
            },
        }
    }
}

/// Every edge of a route backtracked from a tree whose branches use no forbidden edge is
/// an edge of the graph that the constraint model of its edge list does not forbid.
pub proof fn law_backtrack_allowed<C: ConstraintModel>(
    t: SearchTreeView,
    g: Graph,
    models: Seq<C>,
    v: VertexId,
    route: Vec<EdgeTraversal>,
)
    requires
        allowed_by(t, g, models),
        backtrack_matches(t, v, Ok::<Vec<EdgeTraversal>, SearchTreeError>(route)),
    ensures
        forall|i: int| 0 <= i < route@.len() ==> {
            let e = #[trigger] route@[i];
            g.edge_at(e.edge_list_id, e.edge_id) matches Some(edge)
                && e.edge_list_id.0 < models.len() && !models[e.edge_list_id.0 as int].forbids(edge)
        },
{
    let l = choose|l: Label| is_min_cost_label(t, v, l)
        && path_result_matches(t, l, None, Ok::<Vec<EdgeTraversal>, SearchTreeError>(route));
    let w = walk(t.nodes, l, full_walk_fuel(t)).0;
    lemma_walk_allowed(t, g, models, l, full_walk_fuel(t));
    let views = traversal_views(route@);
    assert(views == oriented(t.direction, w));
    assert forall|i: int| 0 <= i < route@.len() implies {
        let e = #[trigger] route@[i];
        g.edge_at(e.edge_list_id, e.edge_id) matches Some(edge)
            && e.edge_list_id.0 < models.len() && !models[e.edge_list_id.0 as int].forbids(edge)
    } by {
        assert(views.len() == route@.len());
        assert(views[i] == route@[i]@);
        match t.direction {
            Direction::Forward => {
                assert(views == w.reverse());
                assert(w.reverse()[i] == w[w.len() - 1 - i]);
                assert(route@[i]@ == w[w.len() - 1 - i]);
            },
            Direction::Reverse => {
                assert(views == w);
                assert(route@[i]@ == w[i]);
            },
        }
    }
}

/// In a forward tree whose labels name vertices alone, the route backtracked to a vertex
/// that the tree reached through an edge ends with the traversal the tree records there:
/// the route's last cost is the cost the tree records at that vertex.
pub proof fn law_route_ends_with_recorded(t: SearchTreeView, v: VertexId, r: Vec<EdgeTraversal>)
    requires
        t.direction == Direction::Forward,
        vertex_keyed(t),
        backtrack_matches(t, v, Ok::<Vec<EdgeTraversal>, SearchTreeError>(r)),
        t.nodes.contains_key(Label::Vertex(v)),
        t.nodes[Label::Vertex(v)] is Branch,
    ensures
        r@.len() > 0,
        r@.last()@ == t.nodes[Label::Vertex(v)].edge()->0,
        r@.last().cost.objective_cost.0 == recorded_cost(t, Label::Vertex(v)),
{
    assert(t.nodes.contains_key(Label::Vertex(v)) && Label::Vertex(v).vertex() == v);
    let l = choose|l: Label| is_min_cost_label(t, v, l)
        && path_result_matches(t, l, None, Ok::<Vec<EdgeTraversal>, SearchTreeError>(r));
    assert(t.nodes.contains_key(l));
    assert(l == Label::Vertex(l.vertex()));
    assert(l == Label::Vertex(v));
    let fuel = full_walk_fuel(t);
    let w = walk(t.nodes, l, fuel);
    assert(fuel > 0);
    match t.nodes[l] {
        SearchTreeNodeView::Root { .. } => {},
        SearchTreeNodeView::Branch { incoming_edge, parent, .. } => {
            let rest = walk(t.nodes, parent, (fuel - 1) as nat);
            assert(w.0 == seq![incoming_edge] + rest.0);
            assert(w.1 == rest.1);
            assert(traversal_views(r@) == w.0.reverse());
            assert(w.0.len() > 0);
            assert(traversal_views(r@).len() == r@.len());
            assert(traversal_views(r@)[r@.len() - 1] == r@[r@.len() - 1]@);
            assert(w.0.reverse()[w.0.len() - 1] == w.0[0]);
        },
    }
}

} // verus!
