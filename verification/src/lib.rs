//! Core engine of a fast, best-effort recursive deletion tool.
//!
//! The library holds everything that decides: the safety guard that refuses
//! drive roots and core system directories, the partition of walked entries
//! into files and directories, the deepest-first ordering of directory
//! removal, and the progress/status bookkeeping with its emission thresholds.
//! The surrounding process does the actual filesystem work and feeds the
//! outcomes back in; paths and names travel as plain byte strings.

pub mod engine;
pub mod entries;
pub mod guard;
pub mod listing;
pub mod progress;
