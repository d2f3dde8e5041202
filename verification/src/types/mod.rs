//! Types describing hardware properties: periods of time, cycle counts and
//! handling histories.

pub mod span;
pub mod clock;
pub mod history;
