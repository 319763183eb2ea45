//! Graph storage and shortest-path support with verified data structures.

pub mod atomic;
pub mod graph;
pub mod path;
pub mod graph_vec;
pub mod graph_memmap;
pub mod random_graph;
