//! The observer: reading on in a transcript, the extraction contract, applying what was
//! extracted, and the decisions of a pass.

pub mod agent;
pub mod apply;
pub mod contract;
pub mod daemon;
pub mod hints;
pub mod input;
pub mod tail;
