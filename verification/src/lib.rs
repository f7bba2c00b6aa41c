//! A reconciliation engine for managed symbolic links and rendered templates.
//!
//! The desired state comes from configuration, the existing state from a cache of
//! what earlier runs deployed. The planner turns both into an ordered list of
//! actions; each action is then run against a filesystem capability and, when it
//! succeeds, recorded in the cache.

pub mod actions;
pub mod args;
pub mod config;
pub mod deploy;
pub mod file_state;
pub mod filesystem;
pub mod laws;
pub mod order;
pub mod path_map;
pub mod paths;
pub mod render;
pub mod sequences;
