use vstd::prelude::*;
use std::collections::HashSet;
use crate::label::Label;
use crate::network::{EdgeId, EdgeListId, Graph, VertexId};
use crate::search::edge_traversal::{EdgeTraversal, EdgeTraversalView};
use crate::search::search_error::SearchError;
use crate::search::search_tree::traversal_views;
use crate::search::search_tree_branch::SearchTreeBranch;

verus! {

broadcast use vstd::std_specs::hash::group_hash_axioms;

/// The position of the first entry of `s` keyed by `l`, if any.
pub open spec fn first_key_index(s: Seq<(Label, SearchTreeBranch)>, l: Label) -> Option<int> {
    if exists|i: int| 0 <= i < s.len() && (#[trigger] s[i]).0 == l {
        Some(choose|i: int| 0 <= i < s.len() && (#[trigger] s[i]).0 == l && forall|j: int| 0 <= j < i ==> (#[trigger] s[j]).0 != l)
    } else {
        None
    }
}

/// The position of the first entry of `s` whose label is at vertex `v`, if any.
pub open spec fn first_vertex_index(s: Seq<(Label, SearchTreeBranch)>, v: VertexId) -> Option<int> {
    if exists|i: int| 0 <= i < s.len() && (#[trigger] s[i]).0.vertex() == v {
        Some(choose|i: int| 0 <= i < s.len() && (#[trigger] s[i]).0.vertex() == v && forall|j: int| 0 <= j < i ==> (#[trigger] s[j]).0.vertex() != v)
    } else {
        None
    }
}

/// Follows branches from `label` toward `source`, collecting the traversals (nearest
/// first); `None` when a label has no branch, a vertex comes back (one of `visited`), or
/// the `fuel` is used up.
#[verifier::opaque]
pub open spec fn label_walk(s: Seq<(Label, SearchTreeBranch)>, source: VertexId, label: Label, visited: Set<usize>, fuel: nat) -> Option<Seq<EdgeTraversalView>>
    decreases fuel,
{
    if label.vertex() == source {
        Some(Seq::empty())
    } else if fuel == 0 || visited.contains(label.vertex().0) {
        None
    } else {
        match first_key_index(s, label) {
            None => None,
            Some(i) => match label_walk(s, source, s[i].1.terminal_label, visited.insert(label.vertex().0), (fuel - 1) as nat) {
                None => None,
                Some(rest) => Some(seq![s[i].1.edge_traversal@] + rest),
            },
        }
    }
}

/// The vertices a walk can visit: those of the labels branches come from, and of `start`.
pub open spec fn walk_vertices(s: Seq<(Label, SearchTreeBranch)>, start: Label) -> Set<usize> {
    s.map_values(|e: (Label, SearchTreeBranch)| e.1.terminal_label.vertex().0).push(start.vertex().0).to_set()
}

/// What backtracking a label-keyed minimum tree from `target_id` to `source_id` gives.
pub open spec fn label_route_result(
    source_id: VertexId,
    target_id: VertexId,
    s: Seq<(Label, SearchTreeBranch)>,
    r: Result<Vec<EdgeTraversal>, SearchError>,
) -> bool {
    if s.len() == 0 {
        r matches Ok(v) && v@.len() == 0
    } else {
        match first_vertex_index(s, target_id) {
            None => r matches Err(SearchError::InternalError(_)),
            Some(i) => match label_walk(s, source_id, s[i].0, Set::empty(), s.len() + 2) {
                None => r matches Err(SearchError::InternalError(_)),
                Some(p) => r matches Ok(v) && traversal_views(v@) == p.reverse(),
            },
        }
    }
}

fn find_label(s: &Vec<(Label, SearchTreeBranch)>, l: &Label) -> (r: Option<usize>)
    ensures
        r matches Some(i) ==> i < s@.len() && first_key_index(s@, *l) == Some(i as int),
        r is None ==> first_key_index(s@, *l) is None,
{
    let mut i: usize = 0;
    while i < s.len()
        invariant
            0 <= i <= s@.len(),
            forall|j: int| 0 <= j < i ==> (#[trigger] s@[j]).0 != *l,
        decreases s@.len() - i,
    {
        if s[i].0 == *l {
            proof {
                let k = choose|k: int| 0 <= k < s@.len() && (#[trigger] s@[k]).0 == *l && forall|j: int| 0 <= j < k ==> (#[trigger] s@[j]).0 != *l;
                if k < i { } else if k > i { assert(s@[i as int].0 == *l); }
            }
            return Some(i);
        }
        i = i + 1;
    }
    None
}

fn find_vertex(s: &Vec<(Label, SearchTreeBranch)>, v: VertexId) -> (r: Option<usize>)
    ensures
        r matches Some(i) ==> i < s@.len() && first_vertex_index(s@, v) == Some(i as int),
        r is None ==> first_vertex_index(s@, v) is None,
{
    let mut i: usize = 0;
    while i < s.len()
        invariant
            0 <= i <= s@.len(),
            forall|j: int| 0 <= j < i ==> (#[trigger] s@[j]).0.vertex() != v,
        decreases s@.len() - i,
    {
        if s[i].0.vertex_id().0 == v.0 {
            proof {
                let k = choose|k: int| 0 <= k < s@.len() && (#[trigger] s@[k]).0.vertex() == v && forall|j: int| 0 <= j < k ==> (#[trigger] s@[j]).0.vertex() != v;
                if k < i { } else if k > i { assert(s@[i as int].0.vertex() == v); }
            }
            return Some(i);
        }
        i = i + 1;
    }
    None
}

proof fn lemma_walk_at_source(s: Seq<(Label, SearchTreeBranch)>, source: VertexId, label: Label, visited: Set<usize>, fuel: nat)
    requires
        label.vertex() == source,
    ensures
        label_walk(s, source, label, visited, fuel) == Some(Seq::<EdgeTraversalView>::empty()),
{
    reveal(label_walk);
}

proof fn lemma_walk_fails(s: Seq<(Label, SearchTreeBranch)>, source: VertexId, label: Label, visited: Set<usize>, fuel: nat)
    requires
        label.vertex() != source,
        visited.contains(label.vertex().0) || first_key_index(s, label) is None,
    ensures
        label_walk(s, source, label, visited, fuel) is None,
{
    reveal(label_walk);
}

proof fn lemma_walk_step(
    s: Seq<(Label, SearchTreeBranch)>,
    source: VertexId,
    label: Label,
    visited: Set<usize>,
    fuel: nat,
    i: int,
    prefix: Seq<EdgeTraversalView>,
)
    requires
        label.vertex() != source,
        !visited.contains(label.vertex().0),
        fuel > 0,
        first_key_index(s, label) == Some(i),
    ensures
        (match label_walk(s, source, label, visited, fuel) {
            None => None,
            Some(rest) => Some(prefix + rest),
        }) == (match label_walk(s, source, s[i].1.terminal_label, visited.insert(label.vertex().0), (fuel - 1) as nat) {
            None => None,
            Some(rest) => Some(prefix.push(s[i].1.edge_traversal@) + rest),
        }),
{
    reveal(label_walk);
    match label_walk(s, source, s[i].1.terminal_label, visited.insert(label.vertex().0), (fuel - 1) as nat) {
        None => {},
        Some(rest) => {
            assert(prefix + (seq![s[i].1.edge_traversal@] + rest) =~= prefix.push(s[i].1.edge_traversal@) + rest);
        },
    }
}

proof fn lemma_candidates(s: Seq<(Label, SearchTreeBranch)>, start: Label)
    ensures
        walk_vertices(s, start).finite(),
        walk_vertices(s, start).len() <= s.len() + 1,
        walk_vertices(s, start).contains(start.vertex().0),
        forall|i: int| 0 <= i < s.len() ==> walk_vertices(s, start).contains((#[trigger] s[i]).1.terminal_label.vertex().0),
{
    let ts = s.map_values(|e: (Label, SearchTreeBranch)| e.1.terminal_label.vertex().0).push(start.vertex().0);
    ts.lemma_cardinality_of_set();
    assert(ts[s.len() as int] == start.vertex().0);
    assert forall|i: int| 0 <= i < s.len() implies walk_vertices(s, start).contains((#[trigger] s[i]).1.terminal_label.vertex().0) by {
        assert(ts[i] == s[i].1.terminal_label.vertex().0);
    }
}

/// Reconstructs a path through a label-keyed minimum tree, walking from a label of
/// `target_id` (the first entry at that vertex) toward `source_id`, and gives it in
/// source-to-target order. An empty tree gives an empty path; a missing target, a
/// missing branch or a vertex met twice give an internal error.
#[verifier::rlimit(40)]
pub fn label_oriented_route(
    source_id: VertexId,
    target_id: VertexId,
    solution: &Vec<(Label, SearchTreeBranch)>,
) -> (r: Result<Vec<EdgeTraversal>, SearchError>)
    ensures
        label_route_result(source_id, target_id, solution@, r),
{
    if solution.len() == 0 {
        return Ok(Vec::new());
    }
    let ghost s = solution@;
    let ghost n = s.len();
    let start = match find_vertex(solution, target_id) {
        Some(i) => i,
        None => return Err(SearchError::InternalError("target vertex not found in solution tree".to_owned())),
    };
    let mut current_label: Label = solution[start].0;
    let ghost start_label = current_label;
    let ghost cands = walk_vertices(s, start_label);
    let mut result: Vec<EdgeTraversal> = Vec::new();
    let mut visited: HashSet<usize> = HashSet::new();
    let ghost mut steps: nat = 0;
    proof {
        lemma_candidates(s, start_label);
        assert(visited@ =~= Set::<usize>::empty());
        assert(traversal_views(result@) =~= Seq::<EdgeTraversalView>::empty());
        match label_walk(s, source_id, start_label, Set::empty(), n + 2) {
            None => {},
            Some(rest) => { assert(Seq::<EdgeTraversalView>::empty() + rest =~= rest); },
        }
    }
    loop
        invariant
            s == solution@,
            n == s.len(),
            n > 0,
            cands == walk_vertices(s, start_label),
            cands.finite(),
            cands.len() <= n + 1,
            forall|k: int| 0 <= k < s.len() ==> cands.contains((#[trigger] s[k]).1.terminal_label.vertex().0),
            visited@.subset_of(cands),
            visited@.finite(),
            visited@.len() == steps,
            cands.contains(current_label.vertex().0),
            steps <= n + 1,
            label_walk(s, source_id, start_label, Set::empty(), n + 2) == match label_walk(s, source_id, current_label, visited@, (n + 2 - steps) as nat) {
                None => None,
                Some(rest) => Some(traversal_views(result@) + rest),
            },
            start_label == s[start as int].0,
            start < n,
            first_vertex_index(s, target_id) == Some(start as int),
        ensures
            label_walk(s, source_id, start_label, Set::empty(), n + 2) == Some(traversal_views(result@)),
        decreases n + 2 - steps,
    {
        if current_label.vertex_id().0 == source_id.0 {
            proof {
                lemma_walk_at_source(s, source_id, current_label, visited@, (n + 2 - steps) as nat);
                assert(traversal_views(result@) + Seq::<EdgeTraversalView>::empty() =~= traversal_views(result@));
            }
            break;
        }
        let current_vertex = current_label.vertex_id().0;
        if visited.contains(&current_vertex) {
            proof { lemma_walk_fails(s, source_id, current_label, visited@, (n + 2 - steps) as nat); }
            return Err(SearchError::InternalError("loop in search result, vertex visited more than once".to_owned()));
        }
        let i = match find_label(solution, &current_label) {
            Some(i) => i,
            None => {
                proof { lemma_walk_fails(s, source_id, current_label, visited@, (n + 2 - steps) as nat); }
                return Err(SearchError::InternalError("label not found in solution tree during backtrack".to_owned()));
            },
        };
        let ghost old_visited = visited@;
        let ghost old_result = result@;
        proof {
            vstd::set_lib::lemma_len_subset(visited@, cands);
            lemma_walk_step(s, source_id, current_label, old_visited, (n + 2 - steps) as nat, i as int, traversal_views(old_result));
        }
        visited.insert(current_vertex);
        result.push(solution[i].1.edge_traversal.clone());
        let next_label = solution[i].1.terminal_label;
        proof {
            assert(traversal_views(result@) =~= traversal_views(old_result).push(s[i as int].1.edge_traversal@));
            assert(visited@ == old_visited.insert(current_label.vertex().0));
            assert(cands.contains(s[i as int].1.terminal_label.vertex().0));
            vstd::set_lib::lemma_len_subset(visited@, cands);
        }
        current_label = next_label;
        proof { steps = steps + 1; }
    }
    let ghost forward = traversal_views(result@);
    let reversed = crate::search::search_tree::reversed_traversals(result);
    Ok(reversed)
}

/// Reconstructs the path of an edge-oriented search through a label-keyed minimum
/// tree: from the destination vertex of the `source_id` edge to the source vertex of
/// the `target_id` edge of `graph`.
pub fn label_edge_oriented_route(
    source_id: (EdgeListId, EdgeId),
    target_id: (EdgeListId, EdgeId),
    solution: &Vec<(Label, SearchTreeBranch)>,
    graph: &Graph,
) -> (r: Result<Vec<EdgeTraversal>, SearchError>)
    ensures
        match graph.edge_at(source_id.0, source_id.1) {
            None => r == Err::<Vec<EdgeTraversal>, SearchError>(SearchError::NetworkFailure {
                source: graph.edge_error(source_id.0, source_id.1) }),
            Some(e1) => match graph.edge_at(target_id.0, target_id.1) {
                None => r == Err::<Vec<EdgeTraversal>, SearchError>(SearchError::NetworkFailure {
                    source: graph.edge_error(target_id.0, target_id.1) }),
                Some(e2) => label_route_result(e1.dst_vertex_id, e2.src_vertex_id, solution@, r),
            },
        },
{
    let o_v = match graph.dst_vertex_id(&source_id.0, &source_id.1) {
        Ok(v) => v,
        Err(e) => return Err(SearchError::NetworkFailure { source: e }),
    };
    let d_v = match graph.src_vertex_id(&target_id.0, &target_id.1) {
        Ok(v) => v,
        Err(e) => return Err(SearchError::NetworkFailure { source: e }),
    };
    label_oriented_route(o_v, d_v, solution)
}

} // verus!
