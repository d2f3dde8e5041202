//! Verified core of the Ra2m hardware architecture simulation kernel.
//!
//! The crate gathers the parts of the simulator that compute: fixed width
//! integers, containers, address routing, log filtering, the scheduler's
//! decisions and the bookkeeping of packets and delays.

pub mod wordseq;
pub mod uint;
pub mod containers;
pub mod protocol;
pub mod output;
pub mod scheduler;
pub mod delay;
pub mod types;
pub mod naming;
pub mod port;
pub mod path;
pub mod module;
pub mod text;
pub mod time;
pub mod event;
pub mod table;
