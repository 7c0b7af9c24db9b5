use vstd::prelude::*;
use crate::map_matching::map_matching_error::MapMatchingError;
use crate::map_matching::map_matching_result::{MapMatchingResult, PointMatch};
use crate::model::map::NearestSearchResult;
use crate::network::{EdgeId, EdgeListId};

verus! {

/// A baseline map matching algorithm: each trace point is matched to its nearest edge,
/// and the matched path is the sequence of matched edges with consecutive repeats
/// removed. Suited to dense, accurate traces; it computes no path between matched
/// edges that are not adjacent and does not use timestamps.
#[derive(Clone, Copy, Debug)]
pub struct SimpleMapMatching;

/// The sequence `s` with each run of equal consecutive items reduced to one item.
pub open spec fn dedup_consecutive(s: Seq<(EdgeListId, EdgeId)>) -> Seq<(EdgeListId, EdgeId)>
    decreases s.len(),
{
    if s.len() == 0 {
        Seq::empty()
    } else {
        let d = dedup_consecutive(s.drop_last());
        if d.len() > 0 && d.last() == s.last() { d } else { d.push(s.last()) }
    }
}

/// Removing consecutive repeats from a path keeps its first and its last edge, leaves
/// no two equal edges next to each other, never lengthens the path, and empties only
/// the empty path.
pub proof fn law_dedup_consecutive(s: Seq<(EdgeListId, EdgeId)>)
    ensures
        dedup_consecutive(s).len() <= s.len(),
        (dedup_consecutive(s).len() == 0) == (s.len() == 0),
        s.len() > 0 ==> dedup_consecutive(s)[0] == s[0] && dedup_consecutive(s).last() == s.last(),
        forall|i: int| 0 <= i < dedup_consecutive(s).len() - 1
            ==> #[trigger] dedup_consecutive(s)[i] != dedup_consecutive(s)[i + 1],
    decreases s.len(),
{
    if s.len() > 0 {
        let p = s.drop_last();
        law_dedup_consecutive(p);
        if p.len() > 0 {
            assert(p[0] == s[0]);
        }
    }
}

/// Whether a nearest-neighbor answer is a usable edge match.
pub open spec fn is_edge_match(r: Result<NearestSearchResult, String>) -> bool {
    r matches Ok(NearestSearchResult::NearestEdge(_, _))
}

/// The edge of an answer that is an edge match.
pub open spec fn matched_edge(r: Result<NearestSearchResult, String>) -> (EdgeListId, EdgeId) {
    match r {
        Ok(NearestSearchResult::NearestEdge(l, e)) => (l, e),
        _ => (EdgeListId(0), EdgeId(0)),
    }
}

/// The position of the first answer that is not an edge match, if any.
pub open spec fn first_unmatched(s: Seq<Result<NearestSearchResult, String>>) -> Option<int> {
    if exists|i: int| 0 <= i < s.len() && !is_edge_match(#[trigger] s[i]) {
        Some(choose|i: int| 0 <= i < s.len() && !is_edge_match(#[trigger] s[i]) && forall|j: int| 0 <= j < i ==> is_edge_match(#[trigger] s[j]))
    } else {
        None
    }
}

impl SimpleMapMatching {
    /// The simple map matching algorithm.
    pub fn new() -> (a: SimpleMapMatching) {
        SimpleMapMatching
    }

    /// The name of this algorithm.
    pub fn name(&self) -> (s: &'static str)
        ensures
            s@ == "simple_map_matching"@,
    {
        "simple_map_matching"
    }

    /// Matches a trace from the answers of the spatial index for its points, in trace
    /// order. The first point whose answer is an error, or a vertex rather than an edge,
    /// fails the match; an empty trace fails too.
    pub fn match_nearest(&self, nearest: &Vec<Result<NearestSearchResult, String>>) -> (r: Result<MapMatchingResult, MapMatchingError>)
        ensures
            nearest@.len() == 0 ==> r matches Err(MapMatchingError::EmptyTrace),
            nearest@.len() > 0 ==> match first_unmatched(nearest@) {
                Some(i) => r matches Err(MapMatchingError::PointMatchFailed { index, message }) && index == i
                    && (nearest@[i] matches Err(m) ==> message@ == m@),
                None => r matches Ok(res)
                    && res.point_matches@.len() == nearest@.len()
                    && (forall|k: int| 0 <= k < nearest@.len() ==> (#[trigger] res.point_matches@[k]).edge_list_id == matched_edge(nearest@[k]).0
                        && res.point_matches@[k].edge_id == matched_edge(nearest@[k]).1)
                    && res.matched_path@ == dedup_consecutive(nearest@.map_values(|a: Result<NearestSearchResult, String>| matched_edge(a))),
            },
    {
        if nearest.len() == 0 {
            return Err(MapMatchingError::EmptyTrace);
        }
        let ghost edges = nearest@.map_values(|a: Result<NearestSearchResult, String>| matched_edge(a));
        let mut point_matches: Vec<PointMatch> = Vec::new();
        let mut matched_path: Vec<(EdgeListId, EdgeId)> = Vec::new();
        let mut last_edge: Option<(EdgeListId, EdgeId)> = None;
        let mut index: usize = 0;
        while index < nearest.len()
            invariant
                0 <= index <= nearest@.len(),
                edges == nearest@.map_values(|a: Result<NearestSearchResult, String>| matched_edge(a)),
                forall|j: int| 0 <= j < index ==> is_edge_match(#[trigger] nearest@[j]),
                point_matches@.len() == index,
                forall|k: int| 0 <= k < index ==> (#[trigger] point_matches@[k]).edge_list_id == matched_edge(nearest@[k]).0
                    && point_matches@[k].edge_id == matched_edge(nearest@[k]).1,
                matched_path@ == dedup_consecutive(edges.take(index as int)),
                match last_edge {
                    None => matched_path@.len() == 0,
                    Some(e) => matched_path@.len() > 0 && matched_path@.last() == e,
                },
            decreases nearest@.len() - index,
        {
            let (edge_list_id, edge_id) = match &nearest[index] {
                Err(message) => {
                    proof { self.lemma_first_unmatched(nearest@, index as int); }
                    return Err(MapMatchingError::PointMatchFailed { index, message: message.clone() });
                },
                Ok(NearestSearchResult::NearestVertex(_)) => {
                    proof { self.lemma_first_unmatched(nearest@, index as int); }
                    return Err(MapMatchingError::PointMatchFailed {
                        index,
                        message: "vertex-oriented spatial index not supported for map matching".to_owned(),
                    });
                },
                Ok(NearestSearchResult::NearestEdge(list_id, eid)) => (*list_id, *eid),
            };
            point_matches.push(PointMatch::new(edge_list_id, edge_id));
            let current_edge = (edge_list_id, edge_id);
            proof {
                assert(edges.take(index + 1).drop_last() =~= edges.take(index as int));
                assert(edges.take(index + 1).last() == current_edge);
            }
            let differs = match last_edge {
                None => true,
                Some(e) => !(e.0.0 == current_edge.0.0 && e.1.0 == current_edge.1.0),
            };
            if differs {
                matched_path.push(current_edge);
                last_edge = Some(current_edge);
            }
            index = index + 1;
        }
        proof {
            assert(edges.take(nearest@.len() as int) =~= edges);
            assert(first_unmatched(nearest@) is None);
        }
        Ok(MapMatchingResult::new(point_matches, matched_path))
    }

    proof fn lemma_first_unmatched(&self, s: Seq<Result<NearestSearchResult, String>>, i: int)
        requires
            0 <= i < s.len(),
            !is_edge_match(s[i]),
            forall|j: int| 0 <= j < i ==> is_edge_match(#[trigger] s[j]),
        ensures
            first_unmatched(s) == Some(i),
    {
        let k = choose|k: int| 0 <= k < s.len() && !is_edge_match(#[trigger] s[k]) && forall|j: int| 0 <= j < k ==> is_edge_match(#[trigger] s[j]);
        if k < i {
        } else if k > i {
            assert(is_edge_match(s[i]));
        }
    }
}

} // verus!
