//! A replicated file tree annotated with vector clocks, and the rules that
//! reconcile two replicas of it.
//!
//! Each replica keeps a tree of nodes (`node`), live or tombstoned, stamped with
//! vector clocks (`timestamp`). Local file-system events update it
//! (`modification`); a sync pulls a subtree from a peer (`synchronization`),
//! deciding node by node with the table of `sync`, and returns the work to do on
//! disk. Writes of the replica itself are kept away from its own event stream by
//! the watch registry (`file_watcher`).
pub mod banner;
pub mod config;
pub mod conflicts;
pub mod delta;
pub mod file_watcher;
pub mod laws;
pub mod machine;
pub mod modification;
pub mod node;
pub mod path_local;
pub mod query;
pub mod replica;
pub mod sync;
pub mod synchronization;
pub mod text;
pub mod timestamp;
pub mod tree;
