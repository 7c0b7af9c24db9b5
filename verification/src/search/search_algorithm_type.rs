use vstd::prelude::*;
use crate::config::json_value::{json_as_str, json_get, json_member, json_string};
use crate::search::search_error::SearchError;

verus! {

/// The search algorithms that can be configured.
#[derive(Clone, Copy, Debug, PartialEq, Eq, Structural)]
pub enum SearchAlgorithmType {
    AStar,
}

impl SearchAlgorithmType {
    /// The configuration name of the algorithm.
    pub fn to_str(&self) -> (s: &'static str)
        ensures
            s@ == "a*"@,
    {
        match self {
            SearchAlgorithmType::AStar => "a*",
        }
    }

    /// The algorithm named `input` ("a*" or "a star"), or a build error for any other name.
    pub fn from_name(input: &str) -> (r: Result<SearchAlgorithmType, SearchError>)
        ensures
            input@ == "a*"@ || input@ == "a star"@ ==> r == Ok::<SearchAlgorithmType, SearchError>(SearchAlgorithmType::AStar),
            !(input@ == "a*"@ || input@ == "a star"@) ==> r matches Err(SearchError::BuildError(_)),
    {
        let name = input.to_owned();
        if name == "a*".to_owned() || name == "a star".to_owned() {
            Ok(SearchAlgorithmType::AStar)
        } else {
            Err(SearchError::BuildError("unknown search algorithm".to_owned()))
        }
    }

    /// The algorithm named by what the key "type" of a configuration holds: `None` when
    /// the key is missing, `Some(None)` when its value is not a string; either is a build
    /// error, and a string is read as by `from_name`.
    pub fn from_type_field(field: Option<Option<String>>) -> (r: Result<SearchAlgorithmType, SearchError>)
        ensures
            match field {
                Some(Some(name)) => (name@ == "a*"@ || name@ == "a star"@ ==> r == Ok::<SearchAlgorithmType, SearchError>(
                    SearchAlgorithmType::AStar))
                    && (!(name@ == "a*"@ || name@ == "a star"@) ==> r matches Err(SearchError::BuildError(_))),
                _ => r matches Err(SearchError::BuildError(_)),
            },
    {
        match field {
            None => Err(SearchError::BuildError("algorithm config missing 'type' field".to_owned())),
            Some(None) => Err(SearchError::BuildError("'type' must be string".to_owned())),
            Some(Some(name)) => SearchAlgorithmType::from_name(name.as_str()),
        }
    }

    /// The algorithm named at the key "type" of an algorithm configuration; a build
    /// error when the key is missing, its value is not a string, or the name is unknown.
    pub fn try_from(config: &serde_json::Value) -> (r: Result<SearchAlgorithmType, SearchError>)
        ensures
            match json_member(*config, "type"@) {
                Some(v) => match json_string(v) {
                    Some(name) => (name == "a*"@ || name == "a star"@ ==> r == Ok::<SearchAlgorithmType, SearchError>(
                        SearchAlgorithmType::AStar))
                        && (!(name == "a*"@ || name == "a star"@) ==> r matches Err(SearchError::BuildError(_))),
                    None => r matches Err(SearchError::BuildError(_)),
                },
                None => r matches Err(SearchError::BuildError(_)),
            },
    {
        let field: Option<Option<String>> = match json_get(config, "type") {
            None => None,
            Some(type_obj) => Some(json_as_str(type_obj)),
        };
        SearchAlgorithmType::from_type_field(field)
    }
}

impl std::str::FromStr for SearchAlgorithmType {
    type Err = SearchError;

    fn from_str(input: &str) -> (r: Result<SearchAlgorithmType, SearchError>)
        ensures
            input@ == "a*"@ || input@ == "a star"@ ==> r == Ok::<SearchAlgorithmType, SearchError>(SearchAlgorithmType::AStar),
            !(input@ == "a*"@ || input@ == "a star"@) ==> r matches Err(SearchError::BuildError(_)),
    {
        SearchAlgorithmType::from_name(input)
    }
}

} // verus!
