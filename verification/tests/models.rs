use routee_compass_core::cost::{Cost, StateVariable};
use routee_compass_core::label::Label;
use routee_compass_core::model::constraint::{ConstraintModel, NoRestriction};
use routee_compass_core::model::cost_model::{CostModel, CostModelError};
use routee_compass_core::model::label_model::{LabelModel, VertexLabelModel};
use routee_compass_core::model::state::{StateModel, StateModelError};
use routee_compass_core::model::termination::TerminationModel;
use routee_compass_core::model::traversal::{DistanceTraversalModel, TraversalModel, TraversalModelError};
use routee_compass_core::network::{Edge, EdgeId, EdgeListId, Vertex, VertexId};
use routee_compass_core::search::direction::Direction;
use routee_compass_core::search::search_error::SearchError;
use routee_compass_core::search::search_result::{SearchResult, TerminationFailurePolicy};
use routee_compass_core::search::search_tree::SearchTree;
use routee_compass_core::search::util::edge_cut_constraint_model::EdgeCutConstraintModel;
use std::collections::HashSet;

#[test]
fn test_state_model_initial_state() {
    let sm = StateModel::new(vec![StateVariable(0), StateVariable(100)]);
    assert_eq!(sm.initial_state(None).unwrap(), vec![StateVariable(0), StateVariable(100)]);
    let prev = vec![StateVariable(5), StateVariable(6)];
    assert_eq!(sm.initial_state(Some(&prev)).unwrap(), prev);
    let short = vec![StateVariable(5)];
    assert_eq!(sm.initial_state(Some(&short)), Err(StateModelError::UnexpectedStateLength(2, 1)));
}

#[test]
fn test_cost_model_weighted_sum() {
    let cm = CostModel::new(vec![2, -1]);
    assert_eq!(cm.state_cost(&vec![StateVariable(10), StateVariable(3)]), Ok(Cost(17)));
    assert_eq!(cm.state_cost(&vec![StateVariable(10)]), Err(CostModelError::StateLengthMismatch(2, 1)));
    let big = CostModel::new(vec![i64::MAX, 1]);
    assert_eq!(big.state_cost(&vec![StateVariable(2), StateVariable(0)]), Err(CostModelError::CostOverflow));
}

#[test]
fn test_distance_traversal_model() {
    let tm = DistanceTraversalModel::new(1);
    let sm = StateModel::new(vec![StateVariable(0), StateVariable(0)]);
    let tree = SearchTree::new(Direction::Forward);
    let a = Vertex::new(0, 0, 0);
    let b = Vertex::new(1, 3, -4);
    let e = Edge::new(0, 0, 0, 1, 25);
    let mut state = vec![StateVariable(1), StateVariable(10)];
    tm.traverse_edge((&a, &e, &b), &mut state, &tree, &sm).unwrap();
    assert_eq!(state, vec![StateVariable(1), StateVariable(35)]);
    tm.estimate_traversal((&a, &b), &mut state, &tree, &sm).unwrap();
    assert_eq!(state, vec![StateVariable(1), StateVariable(39)]);
    let mut short = vec![StateVariable(0)];
    assert_eq!(tm.traverse_edge((&a, &e, &b), &mut short, &tree, &sm), Err(TraversalModelError::FeatureIndexOutOfRange(1)));
    let mut full = vec![StateVariable(0), StateVariable(i64::MAX)];
    assert_eq!(tm.traverse_edge((&a, &e, &b), &mut full, &tree, &sm), Err(TraversalModelError::ValueOverflow));
    assert_eq!(full, vec![StateVariable(0), StateVariable(i64::MAX)]);
}

#[test]
fn test_vertex_label_model() {
    let sm = StateModel::empty();
    let l = VertexLabelModel {}.label_from_state(VertexId(4), &vec![], &sm).unwrap();
    assert_eq!(l, Label::Vertex(VertexId(4)));
}

#[test]
fn test_termination_models() {
    let tree = SearchTree::new(Direction::Forward);
    let it = TerminationModel::IterationsLimit { limit: 3 };
    assert!(it.continue_or_explain(&tree, 2).is_none());
    assert!(it.continue_or_explain(&tree, 3).is_some());
    let size = TerminationModel::SolutionSizeLimit { limit: 1 };
    assert!(size.continue_or_explain(&tree, 100).is_none());
    let rooted = SearchTree::with_root(Label::Vertex(VertexId(0)), Direction::Forward);
    assert_eq!(size.continue_or_explain(&rooted, 0).as_deref(), Some("exceeded solution size limit"));
}

#[test]
fn test_termination_failure_policy() {
    let terminated = SearchResult::terminated(SearchTree::new(Direction::Forward), 5, String::from("out of time"));
    let completed = SearchResult::completed(SearchTree::new(Direction::Forward), 5);
    let strict = TerminationFailurePolicy::AllTerminationsFail;
    let lenient = TerminationFailurePolicy::default();
    assert_eq!(lenient, TerminationFailurePolicy::AllowTreeTermination);
    match strict.handle_termination(&terminated, false) {
        Err(SearchError::QueryTerminated(m)) => assert_eq!(m, "out of time"),
        _ => panic!("expected a termination error"),
    }
    assert!(lenient.handle_termination(&terminated, false).is_ok());
    assert!(matches!(lenient.handle_termination(&terminated, true), Err(SearchError::QueryTerminated(_))));
    assert!(strict.handle_termination(&completed, true).is_ok());
}

#[test]
fn test_edge_cut_constraint_model() {
    let sm = StateModel::empty();
    let cut = EdgeCutConstraintModel::new(NoRestriction {}, HashSet::from([3usize]));
    let cut_edge = Edge::new(0, 3, 0, 1, 1);
    let other = Edge::new(0, 4, 1, 2, 1);
    assert_eq!(cut.valid_frontier(&cut_edge, None, &vec![], &sm), Ok(false));
    assert_eq!(cut.valid_frontier(&other, None, &vec![], &sm), Ok(true));
    assert_eq!(cut.valid_edge(&cut_edge), Ok(false));
    assert_eq!(cut.valid_edge(&other), Ok(true));
    assert_eq!(cut_edge.edge_id, EdgeId(3));
    assert_eq!(other.edge_list_id, EdgeListId(0));
}
