//! Round-selector constraints for a permutation laid out over trace rows.
//!
//! Each row of the trace carries one indicator column per round. The
//! constraints produced here force the indicators to start at round zero,
//! to advance cyclically from row to row, and to fall to an all-zero
//! padding state that is never left again.
pub mod circuit;
pub mod consumer;
pub mod field;
pub mod round_flags;
pub mod trace;
