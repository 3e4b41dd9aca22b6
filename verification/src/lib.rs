//! Similarity metrics for event logs.
//!
//! An event log is turned into a trace, one token per event, and two traces
//! are compared by their edit distance: the least number of tokens that have
//! to be inserted, deleted or substituted to turn the first trace into the
//! second. The distance is then normalised by the length of the first trace
//! into a similarity score.
//!
//! * [`levenshtein`] defines the edit distance and proves that it is a metric.
//! * [`edit_path`] proves that the edit distance is the number of edits of a
//!   shortest path of single edits from one sequence to the other.
//! * [`string_distances`] computes the distance between two traces, and the
//!   similarity derived from it.
//! * [`event_log`] holds an event log as a table of text.
//! * [`trace`] builds the trace of an event log from chosen columns.
//! * [`lines`] reads a trace from plain text, one token per line.

pub mod edit_path;
pub mod event_log;
pub mod levenshtein;
pub mod lines;
pub mod string_distances;
pub mod trace;
