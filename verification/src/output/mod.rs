//! Filtering of the simulation outputs: log verbosity per category, and the
//! kinds of trace.

pub mod log;
pub mod trace;
pub mod setting;
