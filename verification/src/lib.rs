//! Staged-content reconciliation for formatting the staged version of
//! tracked files without discarding unstaged edits.
//!
//! The library is the decision core of the tool: it validates the requested
//! target set, classifies each target, plans every filesystem step of the
//! run (backups, staged-content extraction, rollback, restore, cleanup) as
//! explicit operations with a proved semantics over a model filesystem, and
//! rebuilds the index snapshot. The surrounding program performs the actual
//! filesystem, repository and process work and feeds plain values back in.

pub mod bytes;
pub mod fsop;
pub mod laws;
pub mod search;
pub mod names;
pub mod plan;
pub mod snapshot;
pub mod staging;
pub mod target;
pub mod verdict;
