//! Discovery and bookkeeping for a workspace-cleaning tool.
//!
//! The library locates build-tool workspaces in a model of a scanned
//! directory tree, prunes nested workspaces, orders the result, and
//! aggregates the outcomes of the per-workspace clean invocations.
//! All filesystem walking, process spawning and terminal I/O live in
//! the surrounding application; this crate holds the verified logic.

pub mod display;
pub mod jobs;
pub mod locator;
pub mod order;
pub mod prompt;
pub mod runner;
pub mod text;
