//! Line-level attribution of code to human authors and AI assistants.
//!
//! A commit may carry an authorship log: for each file, the line ranges that
//! a human or an AI prompt wrote. This library reads and writes such logs,
//! reads diffs by line, rebuilds and merges attribution over ranges of
//! commits, lays attribution over a diff, derives counts, and takes the
//! inventory of all files that AI ever touched. It asks nothing of the
//! version-control system itself: where a query needs commands to be run or
//! objects to be read, it says which, and goes on with what the caller hands
//! back.
//!
//! - [`authorship_log`], [`serialization`], [`trailer`], [`json`],
//!   [`round_trip`]: the log and its stored form.
//! - [`diff`], [`overlay`], [`annotate`], [`commands`]: diffs by line and the
//!   annotated diff.
//! - [`virtual_attribution`], [`carry`]: attribution rebuilt in memory, carried
//!   across a diff, restricted to commits and merged.
//! - [`stats`], [`range_authorship`], [`range_job`], [`report`],
//!   [`range_laws`]: counts and the authorship of a range.
//! - [`traversal`]: the inventory of AI-touched files.
//! - [`installers`]: the agents and editors that can be hooked into.
//! - [`text`], [`sequences`], [`error`]: what the others rest on.

pub mod annotate;
pub mod authorship_log;
pub mod carry;
pub mod commands;
pub mod diff;
pub mod error;
pub mod installers;
pub mod json;
pub mod overlay;
pub mod range_authorship;
pub mod range_job;
pub mod range_laws;
pub mod report;
pub mod round_trip;
pub mod sequences;
pub mod serialization;
pub mod stats;
pub mod text;
pub mod trailer;
pub mod traversal;
pub mod virtual_attribution;
