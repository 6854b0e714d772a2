//! Pruning of directory trees: a post-order walk that removes empty
//! directories, zero-length files, or both.
//!
//! `pruner` holds the walk as a state machine that names one filesystem
//! action at a time and takes its outcome back; `model` describes a
//! directory tree and the answers a filesystem holding it gives to the walk;
//! `laws` proves what a walk does to such a tree.
pub mod entry;
pub mod laws;
pub mod mode;
pub mod model;
pub mod pruner;
