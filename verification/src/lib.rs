//! Per-command aggregate resident-memory reporting.
//!
//! The library takes raw per-process memory samples, groups them by command
//! name, converts the byte totals to megabytes, computes integer mean and
//! population standard deviation over the per-command values, and renders a
//! sorted, colour-emphasised textual report.

pub mod aggregate;
pub mod model;
pub mod report;
pub mod stats;
pub mod text;

pub use model::AggregateEntry;
pub use model::ProcessSample;
