use vstd::prelude::*;
use crate::network::{EdgeId, EdgeListId, VertexId};

verus! {

/// What a nearest-neighbor query on the map's spatial index found.
#[derive(Clone, Copy, Debug, PartialEq, Eq, Structural)]
pub enum NearestSearchResult {
    NearestEdge(EdgeListId, EdgeId),
    NearestVertex(VertexId),
}

/// Errors raised by the map model.
#[derive(Debug)]
pub enum MapError {
    /// a spatial query could not be answered
    MapMatchingError(String),
}

} // verus!
