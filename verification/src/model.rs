pub mod access;
pub mod constraint;
pub mod cost_model;
pub mod filter;
pub mod frontier;
pub mod label_model;
pub mod map;
pub mod state;
pub mod termination;
pub mod traversal;
