//! Workspace-level indexing: handles, binding tables, reference resolution, and diagnostics.

pub mod bindings;
pub mod model;
pub mod tables;
pub mod index;
pub mod resolve;
pub mod references;
pub mod relationships;
pub mod deployment;
pub mod views;
pub mod dynamic;
pub mod structure;
pub mod errors;
pub mod substitution;
pub mod discovery;
pub mod ordering;
pub mod cycles;
pub mod include_findings;
pub mod selectors;
pub mod resources;
pub mod instance;
pub mod targets;
pub mod contexts;
pub mod facts;
pub mod merge;
pub mod loader;
