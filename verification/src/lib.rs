//! Verified core of an energy-aware routing engine: road network model,
//! search trees, A* search, k-shortest-path helpers, strongly connected
//! components, map matching and configuration helpers.

pub mod component;
pub mod config;
pub mod cost;
pub mod label;
pub mod map_matching;
pub mod model;
pub mod network;
pub mod priority_queue;
pub mod reachability;
pub mod search;
pub mod text;
