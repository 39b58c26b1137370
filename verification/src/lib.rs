//! The verified core of the knowledge observer: the evidence graph with its
//! operations, the node file format, the observer's extraction contract and
//! pass decisions, the request dispatch, and the configuration rules.

pub mod cli;
pub mod config;
pub mod dispatch;
pub mod error;
pub mod ipc;
pub mod json;
pub mod laws;
pub mod mcp;
pub mod observer;
pub mod project;
pub mod record;
pub mod score;
pub mod seqs;
pub mod store;
pub mod text;
pub mod view;
pub mod wire;
