pub mod edge_cut_constraint_model;
pub mod edge_cut_filter_model;
pub mod edge_cut_frontier_model;
pub mod route_similarity_function;
