//! The knowledge store: the graph, the operations on it and its files.

pub mod cycles;
pub mod documents;
pub mod filter;
pub mod hygiene;
pub mod ids;
pub mod layout;
pub mod lists;
pub mod lookup;
pub mod merge;
pub mod model;
pub mod node_md;
pub mod observer_hint;
pub mod observer_state;
pub mod observer_stats;
pub mod ops;
pub mod order;
pub mod saved;
pub mod scoring;
pub mod state;
pub mod wave;
