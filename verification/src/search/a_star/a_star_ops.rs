use vstd::prelude::*;
use itertools::Itertools;
use crate::model::constraint::ConstraintModel;
use crate::model::label_model::LabelModel;
use crate::model::traversal::TraversalModel;
use crate::network::{Graph, VertexId};
use crate::search::edge_traversal::EdgeTraversal;
use crate::search::search_error::SearchError;
use crate::search::search_instance::SearchInstance;

verus! {

/// Whether `i` is the position of the first occurrence of `x` in `s`.
pub open spec fn first_occurrence(s: Seq<VertexId>, x: VertexId, i: int) -> bool {
    0 <= i < s.len() && s[i] == x && forall|j: int| 0 <= j < i ==> s[j] != x
}

/// The distinct vertices of `items`, each once, through `Itertools::unique`, which keeps
/// the first of equal items and is stable; claimed: no vertex is repeated, the vertices
/// are those of `items`, and they come in the order of their first occurrences there.
#[verifier::external_body]
fn unique_vertices(items: &Vec<VertexId>) -> (r: Vec<VertexId>)
    ensures
        r@.no_duplicates(),
        r@.to_set() == items@.to_set(),
        forall|a: int, b: int, i: int, j: int|
            #![trigger first_occurrence(items@, r@[a], i), first_occurrence(items@, r@[b], j)]
            0 <= a < b < r@.len() && first_occurrence(items@, r@[a], i) && first_occurrence(items@, r@[b], j) ==> i < j,
{
    items.iter().copied().unique().collect_vec()
}

/// The position of the first edge of `route` that the graph does not hold, if any.
pub open spec fn first_missing_edge(g: Graph, route: Seq<EdgeTraversal>) -> Option<int> {
    if exists|i: int| 0 <= i < route.len() && g.edge_at(#[trigger] route[i].edge_list_id, route[i].edge_id) is None {
        Some(choose|i: int| 0 <= i < route.len() && g.edge_at(#[trigger] route[i].edge_list_id, route[i].edge_id) is None
            && forall|j: int| 0 <= j < i ==> g.edge_at(#[trigger] route[j].edge_list_id, route[j].edge_id) is Some)
    } else {
        None
    }
}

/// The source vertices of the edges of a route whose edges the graph holds.
pub open spec fn route_sources(g: Graph, route: Seq<EdgeTraversal>) -> Seq<VertexId> {
    route.map_values(|e: EdgeTraversal| g.edge_at(e.edge_list_id, e.edge_id)->0.src_vertex_id)
}

/// What looking up the source vertices of a route gives: the first missing edge's
/// error, or the source vertex of every edge, in route order.
pub open spec fn sources_result(g: Graph, route: Seq<EdgeTraversal>, r: Result<Vec<VertexId>, SearchError>) -> bool {
    match first_missing_edge(g, route) {
        Some(i) => r == Err::<Vec<VertexId>, SearchError>(SearchError::NetworkFailure {
            source: g.edge_error(route[i].edge_list_id, route[i].edge_id) }),
        None => r matches Ok(v) && v@ == route_sources(g, route),
    }
}

/// The source vertex of every edge of `route`, or the error of the first edge the graph lacks.
pub fn source_vertices(route: &Vec<EdgeTraversal>, graph: &Graph) -> (r: Result<Vec<VertexId>, SearchError>)
    ensures
        sources_result(*graph, route@, r),
{
    let mut v: Vec<VertexId> = Vec::new();
    let mut i: usize = 0;
    while i < route.len()
        invariant
            0 <= i <= route@.len(),
            forall|j: int| 0 <= j < i ==> graph.edge_at(#[trigger] route@[j].edge_list_id, route@[j].edge_id) is Some,
            v@ == route_sources(*graph, route@).take(i as int),
        decreases route@.len() - i,
    {
        let e = &route[i];
        match graph.src_vertex_id(&e.edge_list_id, &e.edge_id) {
            Ok(s) => {
                v.push(s);
                proof {
                    assert(route_sources(*graph, route@).take(i + 1) =~= route_sources(*graph, route@).take(i as int).push(s));
                }
            },
            Err(err) => {
                proof {
                    let ii = i as int;
                    assert(graph.edge_at(route@[ii].edge_list_id, route@[ii].edge_id) is None);
                    let k = choose|k: int| 0 <= k < route@.len() && graph.edge_at(#[trigger] route@[k].edge_list_id, route@[k].edge_id) is None
                        && forall|j: int| 0 <= j < k ==> graph.edge_at(#[trigger] route@[j].edge_list_id, route@[j].edge_id) is Some;
                    if k < ii {
                    } else if k > ii {
                        assert(graph.edge_at(route@[ii].edge_list_id, route@[ii].edge_id) is Some);
                    }
                    assert(k == ii);
                }
                return Err(SearchError::NetworkFailure { source: err });
            },
        }
        i = i + 1;
    }
    proof {
        assert(route_sources(*graph, route@).take(route@.len() as int) =~= route_sources(*graph, route@));
        assert(first_missing_edge(*graph, route@) is None);
    }
    Ok(v)
}

/// Whether some vertex is the source of two edges of `route`: a loop.
pub fn has_repeated_vertex(vertices: &Vec<VertexId>) -> (b: bool)
    ensures
        b == !vertices@.no_duplicates(),
{
    let unique = unique_vertices(vertices);
    proof {
        unique@.unique_seq_to_set();
        vertices@.lemma_cardinality_of_set();
        if vertices@.no_duplicates() {
            vertices@.unique_seq_to_set();
        } else if unique@.len() == vertices@.len() {
            vertices@.lemma_no_dup_set_cardinality();
        }
    }
    unique.len() < vertices.len()
}

/// Whether a route has a loop: two of its edges leaving the same vertex. An error when
/// the graph lacks one of its edges.
pub fn route_contains_loop<T: TraversalModel, C: ConstraintModel, L: LabelModel>(
    route: &Vec<EdgeTraversal>,
    si: &SearchInstance<T, C, L>,
) -> (r: Result<bool, SearchError>)
    ensures
        match first_missing_edge(si.graph, route@) {
            Some(i) => r == Err::<bool, SearchError>(SearchError::NetworkFailure {
                source: si.graph.edge_error(route@[i].edge_list_id, route@[i].edge_id) }),
            None => r == Ok::<bool, SearchError>(!route_sources(si.graph, route@).no_duplicates()),
        },
{
    let src_vertices = match source_vertices(route, &si.graph) {
        Ok(v) => v,
        Err(e) => return Err(e),
    };
    Ok(has_repeated_vertex(&src_vertices))
}

} // verus!
