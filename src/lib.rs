//! Structural comparison of captured database schemas: the snapshot model,
//! the comparison of two snapshots, and its console and report renderings.

pub mod compare;
pub mod config;
pub mod laws;
pub mod render;
pub mod schema;
pub mod text;
