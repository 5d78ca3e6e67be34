//! Who calls whom across the files of a project.
pub mod callers;
pub mod data;
pub mod entry;
pub mod files;
pub mod flow;
pub mod flow_laws;
pub mod forward;
pub mod graph;
pub mod impact;
pub mod laws;
pub mod model;
pub mod params;
pub mod resolve;
pub mod trace;
pub mod worktree;
