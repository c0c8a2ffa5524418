//! Crawl the tracked-issue relation of an issue tracker starting from one
//! root issue and render the discovered dependency graph as flowchart text.
//!
//! The crate holds the verified core: the crawler's bookkeeping (visited set,
//! work queue, adjacency structure) and the deterministic renderer. Network
//! access and argument handling live outside, handing the core plain values.

pub mod crawl;
pub mod error;
pub mod graph;
pub mod issue;
pub mod query;
pub mod render;
pub mod text;

