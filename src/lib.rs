//! A branching network grown over a fixed set of sites joined by a planar
//! adjacency graph, with a weighted blend of the per-site states that can be
//! sampled at cached query keys.

pub mod graph;
pub mod growth;
pub mod network;
pub mod path;
pub mod site;
pub mod types;
