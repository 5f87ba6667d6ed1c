//! Rewrites an API description document: path renames and removals,
//! definition edits, synthesized operation ids and required lists,
//! pruning of unreachable definitions and of unused tags.

pub mod json;
pub mod merge_map;
pub mod pattern;
pub mod order;
pub mod swagger;
pub mod table;
pub mod paths;
pub mod config;
pub mod yaml;
pub mod definitions;
pub mod reach;
pub mod tags;
pub mod shape;
pub mod pipeline;
