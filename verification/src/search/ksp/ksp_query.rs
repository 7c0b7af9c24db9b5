use vstd::prelude::*;
use crate::config::json_value::{json_as_u64, json_get, json_member, json_uint};
use crate::network::VertexId;
use crate::search::search_error::SearchError;

verus! {

/// The number of routes asked for, from the query's field "k" as read by
/// `serde_json`: the default when absent, an error when not an unsigned integer.
pub open spec fn k_from_field_spec(k_field: Option<Option<u64>>, k_default: usize) -> Result<usize, ()> {
    match k_field {
        None => Ok(k_default),
        Some(Some(k)) => Ok(k as usize),
        Some(None) => Err(()),
    }
}

/// What the field "k" of a user query holds: absent, or its value read as an unsigned integer.
pub open spec fn k_field_of(query: serde_json::Value) -> Option<Option<u64>> {
    match json_member(query, "k"@) {
        None => None,
        Some(v) => Some(json_uint(v)),
    }
}

/// The number of routes asked for, given what the query's field "k" holds: `None` when
/// the field is absent (the default applies), `Some(None)` when it is not an unsigned
/// integer (a build error).
pub fn k_from_field(k_field: Option<Option<u64>>, k_default: usize) -> (r: Result<usize, SearchError>)
    ensures
        match k_from_field_spec(k_field, k_default) {
            Ok(k) => r == Ok::<usize, SearchError>(k),
            Err(_) => r matches Err(SearchError::BuildError(_)),
        },
{
    match k_field {
        None => Ok(k_default),
        Some(Some(k)) => Ok(k as usize),
        Some(None) => Err(SearchError::BuildError("user supplied k value is not an integer".to_owned())),
    }
}

/// A k-shortest-paths query: its endpoints, the user's query, and the number of routes asked for.
#[derive(Debug, Clone)]
pub struct KspQuery<'a> {
    pub source: VertexId,
    pub target: VertexId,
    pub user_query: &'a serde_json::Value,
    pub k: usize,
}

impl<'a> KspQuery<'a> {
    /// A query between `source` and `target` asking for the number of routes in the user
    /// query's field "k", or `k_default` when it has none.
    pub fn new(source: VertexId, target: VertexId, query: &'a serde_json::Value, k_default: usize) -> (r: Result<KspQuery<'a>, SearchError>)
        ensures
            match k_from_field_spec(k_field_of(*query), k_default) {
                Ok(k) => r matches Ok(q) && q.source == source && q.target == target && q.user_query == query && q.k == k,
                Err(_) => r matches Err(SearchError::BuildError(_)),
            },
    {
        let k_field: Option<Option<u64>> = match json_get(query, "k") {
            None => None,
            Some(k_json) => Some(json_as_u64(k_json)),
        };
        let k = match k_from_field(k_field, k_default) {
            Ok(k) => k,
            Err(e) => return Err(e),
        };
        proof { assert(k_from_field_spec(k_field, k_default) == Ok::<usize, ()>(k)); }
        Ok(KspQuery { source, target, user_query: query, k })
    }
}

} // verus!
