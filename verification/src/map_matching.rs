pub mod map_matching_builder;
pub mod map_matching_error;
pub mod map_matching_result;
pub mod simple_map_matching;
pub mod edge_path;
pub mod stationary;
