pub mod a_star_algorithm;
pub mod a_star_frontier;
pub mod a_star_ops;
pub mod bidirectional_ops;
pub mod frontier_instance;
