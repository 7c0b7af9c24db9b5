use vstd::prelude::*;
use crate::network::{EdgeId, EdgeListId};

verus! {

/// The edge a trace point was matched to.
#[derive(Clone, Copy, Debug, PartialEq, Eq, Structural)]
pub struct PointMatch {
    pub edge_list_id: EdgeListId,
    pub edge_id: EdgeId,
}

impl PointMatch {
    /// A match of a point to the edge `edge_id` of edge list `edge_list_id`.
    pub fn new(edge_list_id: EdgeListId, edge_id: EdgeId) -> (m: PointMatch)
        ensures
            m == (PointMatch { edge_list_id, edge_id }),
    {
        PointMatch { edge_list_id, edge_id }
    }
}

/// The outcome of matching a trace: one match per point, and the path of matched edges.
#[derive(Debug)]
pub struct MapMatchingResult {
    pub point_matches: Vec<PointMatch>,
    pub matched_path: Vec<(EdgeListId, EdgeId)>,
}

impl MapMatchingResult {
    /// A result from its point matches and matched path.
    pub fn new(point_matches: Vec<PointMatch>, matched_path: Vec<(EdgeListId, EdgeId)>) -> (r: MapMatchingResult)
        ensures
            r.point_matches@ == point_matches@,
            r.matched_path@ == matched_path@,
    {
        MapMatchingResult { point_matches, matched_path }
    }

    /// The number of matched points.
    pub fn len(&self) -> (n: usize)
        ensures
            n == self.point_matches@.len(),
    {
        self.point_matches.len()
    }

    /// Whether no point was matched.
    pub fn is_empty(&self) -> (b: bool)
        ensures
            b == (self.point_matches@.len() == 0),
    {
        self.point_matches.len() == 0
    }
}

} // verus!
