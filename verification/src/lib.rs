//! A crawl-frontier and link-graph manager.
//!
//! The library owns the set of URLs still to visit (the frontier), the graph
//! of already-fetched domains and their outgoing links, a record of visit
//! timestamps, and a table of observed HTTP redirects. It decides, on every
//! state change, which URLs are eligible for (re)enqueueing and which graph
//! entries must be evicted. Reading the clock, shuffling, and URL resolution
//! are done by outside crates behind a small trusted boundary; loading and
//! persisting the graph file is left to the surrounding program.

pub mod frontier;
pub mod manager;
pub mod policy;
pub mod graph;
pub mod strmap;
pub mod trusted;

pub use graph::DomainInfo;
pub use graph::Graph;
pub use graph::Link;
pub use manager::Manager;
pub use strmap::StrMap;
