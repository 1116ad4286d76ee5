//! Planning the upgrade of an instance's content to another game environment.
pub mod api;
pub mod candidates;
pub mod classify;
pub mod issues;
pub mod item_issues;
pub mod materialize;
pub mod order;
pub mod plan;
pub mod provider;
pub mod release_order;
pub mod ranking;
pub mod search;
pub mod search_spec;
pub mod snapshot;
pub mod worklist;
pub mod solver;
