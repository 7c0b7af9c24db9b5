use routee_compass_core::config::config_keys::{is_input_file_key, key_ends_with};
use routee_compass_core::config::compass_configuration_field::CompassConfigurationField;
use routee_compass_core::config::one_or_many::OneOrMany;
use routee_compass_core::search::search_algorithm_type::SearchAlgorithmType;
use routee_compass_core::search::search_error::SearchError;
use routee_compass_core::search::ksp::ksp_termination_criteria::KspTerminationCriteria;
use routee_compass_core::search::search_algorithm::SearchAlgorithm;
use routee_compass_core::search::search_algorithm_config::SearchAlgorithmConfig;
use routee_compass_core::search::search_result::TerminationFailurePolicy;
use routee_compass_core::config::compass_configuration_error::CompassConfigurationError;
use routee_compass_core::config::config_lookup::{
    get_config_array, get_config_i64, get_config_section, get_config_string, get_config_string_optional, optional_field,
    required_field,
};
use std::str::FromStr;

#[test]
fn test_one_or_many() {
    let one = OneOrMany::One(5);
    assert_eq!(one.len(), 1);
    assert!(!one.is_empty());
    assert_eq!(one.as_vec(), vec![&5]);
    assert_eq!(one.iter(), vec![&5]);
    assert_eq!(one.into_vec(), vec![5]);
    let many = OneOrMany::Many(vec![1, 2, 3]);
    assert_eq!(many.len(), 3);
    assert_eq!(many.as_vec(), vec![&1, &2, &3]);
    assert_eq!(many.into_vec(), vec![1, 2, 3]);
    let none: OneOrMany<i32> = OneOrMany::Many(vec![]);
    assert!(none.is_empty());
    assert_eq!(none.len(), 0);
}

#[test]
fn test_configuration_field_keys() {
    assert_eq!(CompassConfigurationField::Graph.to_str(), "graph");
    assert_eq!(CompassConfigurationField::Plugins.to_str(), "plugin");
    assert_eq!(CompassConfigurationField::MapModel.to_str(), "mapping");
    assert_eq!(CompassConfigurationField::QueryTimeoutMs.to_str(), "query_timeout_ms");
    assert_eq!(CompassConfigurationField::ResponseOutputPolicy.to_str(), "response_output_policy");
    assert_eq!(CompassConfigurationField::Label.to_str(), "label");
}

#[test]
fn test_search_algorithm_type_names() {
    assert_eq!(SearchAlgorithmType::AStar.to_str(), "a*");
    assert_eq!(SearchAlgorithmType::from_str("a*").unwrap(), SearchAlgorithmType::AStar);
    assert_eq!(SearchAlgorithmType::from_str("a star").unwrap(), SearchAlgorithmType::AStar);
    assert!(matches!(SearchAlgorithmType::from_str("dijkstra"), Err(SearchError::BuildError(_))));
}

#[test]
fn test_input_file_keys() {
    assert!(is_input_file_key("edge_list_input_file"));
    assert!(is_input_file_key("vehicles_input_files"));
    assert!(!is_input_file_key("results_output_file"));
    assert!(!is_input_file_key("file"));
    assert!(key_ends_with("höhe_input_file", "input_file"));
    assert!(!key_ends_with("x", "xx"));
}

#[test]
fn test_search_algorithm_from_config() {
    let config: SearchAlgorithmConfig<()> = SearchAlgorithmConfig::Yens {
        k: 4,
        underlying: Box::new(SearchAlgorithmConfig::AStar { termination_behavior: None }),
        similarity: None,
        termination: Some(KspTerminationCriteria::Exact),
    };
    match SearchAlgorithm::from_config(config) {
        SearchAlgorithm::Yens { k, underlying, similarity, termination } => {
            assert_eq!(k, 4);
            assert!(similarity.is_none());
            assert_eq!(termination, Some(KspTerminationCriteria::Exact));
            assert!(matches!(
                *underlying,
                SearchAlgorithm::SingleSourceShortestPath {
                    termination_behavior: TerminationFailurePolicy::AllowTreeTermination,
                    a_star: true
                }
            ));
        }
        _ => panic!("expected a Yen's algorithm"),
    }
    let dijkstra: SearchAlgorithmConfig<()> =
        SearchAlgorithmConfig::Dijkstras { termination_behavior: Some(TerminationFailurePolicy::AllTerminationsFail) };
    assert!(matches!(
        SearchAlgorithm::from_config(dijkstra),
        SearchAlgorithm::SingleSourceShortestPath {
            termination_behavior: TerminationFailurePolicy::AllTerminationsFail,
            a_star: false
        }
    ));
}

#[test]
fn test_search_algorithm_type_from_config_object() {
    let a_star: serde_json::Value = serde_json::from_str("{\"type\": \"a*\"}").unwrap();
    let spelled: serde_json::Value = serde_json::from_str("{\"type\": \"a star\"}").unwrap();
    let unknown: serde_json::Value = serde_json::from_str("{\"type\": \"bfs\"}").unwrap();
    let not_string: serde_json::Value = serde_json::from_str("{\"type\": 7}").unwrap();
    let missing: serde_json::Value = serde_json::from_str("{}").unwrap();
    assert_eq!(SearchAlgorithmType::try_from(&a_star).unwrap(), SearchAlgorithmType::AStar);
    assert_eq!(SearchAlgorithmType::try_from(&spelled).unwrap(), SearchAlgorithmType::AStar);
    assert!(matches!(SearchAlgorithmType::try_from(&unknown), Err(SearchError::BuildError(_))));
    assert!(matches!(SearchAlgorithmType::try_from(&not_string), Err(SearchError::BuildError(_))));
    assert!(matches!(SearchAlgorithmType::try_from(&missing), Err(SearchError::BuildError(_))));
    assert!(matches!(SearchAlgorithmType::from_type_field(None), Err(SearchError::BuildError(_))));
    assert!(matches!(SearchAlgorithmType::from_type_field(Some(None)), Err(SearchError::BuildError(_))));
    assert_eq!(
        SearchAlgorithmType::from_type_field(Some(Some(String::from("a*")))).unwrap(),
        SearchAlgorithmType::AStar
    );
}

#[test]
fn test_config_lookups() {
    let config: serde_json::Value =
        serde_json::from_str("{\"name\": \"grid\", \"size\": 12, \"items\": [1, 2], \"graph\": {\"n\": 1}}").unwrap();

    assert_eq!(get_config_string(&config, "name", "parent").unwrap(), "grid");
    match get_config_string(&config, "missing", "parent") {
        Err(CompassConfigurationError::ExpectedFieldForComponent(k, p)) => {
            assert_eq!(k, "missing");
            assert_eq!(p, "parent");
        }
        _ => panic!("expected a missing field error"),
    }
    match get_config_string(&config, "size", "parent") {
        Err(CompassConfigurationError::ExpectedFieldWithType(k, t)) => {
            assert_eq!(k, "size");
            assert_eq!(t, "String");
        }
        _ => panic!("expected a type error"),
    }

    assert_eq!(get_config_string_optional(&config, "name").unwrap(), Some(String::from("grid")));
    assert_eq!(get_config_string_optional(&config, "absent").unwrap(), None);
    assert!(matches!(
        get_config_string_optional(&config, "size"),
        Err(CompassConfigurationError::ExpectedFieldWithType(_, _))
    ));

    assert_eq!(get_config_i64(&config, "size", "parent").unwrap(), 12);
    match get_config_i64(&config, "name", "parent") {
        Err(CompassConfigurationError::ExpectedFieldWithType(k, t)) => {
            assert_eq!(k, "name");
            assert_eq!(t, "64-bit signed integer");
        }
        _ => panic!("expected a type error"),
    }

    assert_eq!(get_config_array(&config, "items", "parent").unwrap().len(), 2);
    match get_config_array(&config, "name", "parent") {
        Err(CompassConfigurationError::ExpectedFieldWithType(_, t)) => assert_eq!(t, "Array"),
        _ => panic!("expected a type error"),
    }

    let graph = get_config_section(&config, CompassConfigurationField::Graph, "root").unwrap();
    assert_eq!(get_config_i64(&graph, "n", "graph").unwrap(), 1);
    match get_config_section(&config, CompassConfigurationField::Cost, "root") {
        Err(CompassConfigurationError::ExpectedFieldForComponent(k, p)) => {
            assert_eq!(k, "cost");
            assert_eq!(p, "root");
        }
        _ => panic!("expected a missing section error"),
    }
}

#[test]
fn test_required_and_optional_fields() {
    assert_eq!(required_field(Some(Some(3)), "k", "p", "int").unwrap(), 3);
    assert!(matches!(
        required_field::<i32>(None, "k", "p", "int"),
        Err(CompassConfigurationError::ExpectedFieldForComponent(_, _))
    ));
    assert!(matches!(
        required_field::<i32>(Some(None), "k", "p", "int"),
        Err(CompassConfigurationError::ExpectedFieldWithType(_, _))
    ));
    assert_eq!(optional_field::<i32>(None, "k", "int").unwrap(), None);
    assert_eq!(optional_field(Some(Some(4)), "k", "int").unwrap(), Some(4));
    assert!(matches!(
        optional_field::<i32>(Some(None), "k", "int"),
        Err(CompassConfigurationError::ExpectedFieldWithType(_, _))
    ));
}

#[test]
fn test_field_keys_are_distinct() {
    let fields = [
        CompassConfigurationField::Graph,
        CompassConfigurationField::Constraint,
        CompassConfigurationField::Termination,
        CompassConfigurationField::Label,
        CompassConfigurationField::State,
        CompassConfigurationField::Traversal,
        CompassConfigurationField::Access,
        CompassConfigurationField::Cost,
        CompassConfigurationField::Algorithm,
        CompassConfigurationField::Plugins,
        CompassConfigurationField::MapModel,
        CompassConfigurationField::InputPlugins,
        CompassConfigurationField::OutputPlugins,
        CompassConfigurationField::Parallelism,
        CompassConfigurationField::QueryTimeoutMs,
        CompassConfigurationField::IncludeTree,
        CompassConfigurationField::ChargeDepleting,
        CompassConfigurationField::ChargeSustaining,
        CompassConfigurationField::ResponsePersistencePolicy,
        CompassConfigurationField::ResponseOutputPolicy,
    ];
    for (i, a) in fields.iter().enumerate() {
        for b in fields.iter().skip(i + 1) {
            assert_ne!(a.to_str(), b.to_str());
        }
    }
}
