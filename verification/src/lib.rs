//! A single-user version-control engine: it snapshots a working directory
//! tree, records a commit graph with named branches, and supports switching
//! between history points and merging a branch back into the trunk.
//!
//! This crate holds the verified history engine: the content-hash type, the
//! snapshot change-detection algorithm, the persistent repository record with
//! its global invariants, and the command state transitions. Filesystem
//! walking, the archive codec, persistence and the command line live in the
//! surrounding binary, which hands the engine plain values.

pub mod util;
pub mod vcs_commands;
pub mod command_line_handling;
