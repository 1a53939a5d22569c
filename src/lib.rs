//! Project-aware directory trees: module detection, workspace resolution
//! and lens-aware rendering of a bounded, arena-based tree.

pub mod charseq;
pub mod config;
pub mod doc;
pub mod error;
pub mod markers;
pub mod model;
pub mod order;
pub mod paths;
pub mod render;
pub mod summary;
pub mod walk;
pub mod workspace;
