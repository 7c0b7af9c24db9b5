use vstd::prelude::*;
use crate::model::map::MapError;
use crate::search::search_error::SearchError;

verus! {

/// Errors raised by map matching.
#[derive(Debug)]
pub enum MapMatchingError {
    /// the trace has no points
    EmptyTrace,
    /// the point at `index` could not be matched
    PointMatchFailed { index: usize, message: String },
    /// no path joins two matched points
    PathComputationFailed(String),
    MapError { source: MapError },
    SearchError { source: SearchError },
    InternalError(String),
}

} // verus!
