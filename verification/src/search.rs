pub mod a_star;
pub mod backtrack;
pub mod direction;
pub mod edge_traversal;
pub mod ksp;
pub mod search_algorithm_type;
pub mod search_algorithm;
pub mod search_algorithm_config;
pub mod search_error;
pub mod search_instance;
pub mod search_result;
pub mod route_laws;
pub mod search_tree_node;
pub mod util;
pub mod search_tree;
pub mod search_tree_branch;
pub mod search_tree_laws;
