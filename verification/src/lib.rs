//! Merging of speedscope sampling-profiler snapshots.
//!
//! Several snapshots of one process, taken one after the other, are merged
//! into a single snapshot: the frames of all of them are deduplicated into one
//! table, every sample is rewritten to index into that table, and profiles of
//! the same name are joined end to end.

pub mod aggregate;
pub mod combine_speedscope;
pub mod error;
pub mod frame_table;
pub mod grouping;
pub mod laws;
pub mod remap;
pub mod sampling;
pub mod speedscope_format;
