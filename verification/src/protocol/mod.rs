//! Protocols carried by packets: address based memory accesses, transfers
//! between address spaces and network frames, with their handling status
//! and their trace representation.

pub mod addr;
pub mod membus;
pub mod dma;
pub mod network;

use vstd::prelude::*;

verus! {

/// Value of a traced field: text, a scalar or an array of scalars.
#[derive(Debug, Clone)]
pub enum Traceable {
    Text(String),
    Scalar(u64),
    Array(Vec<u64>),
}

/// Status of an access: on its way to the target, acknowledged by it, or
/// failed.
#[derive(Debug)]
pub enum Mode<E> {
    /// The access is on its way to the target.
    Request,
    /// The target handled the access and acknowledges the requester.
    Response,
    /// The access failed.
    Error(E),
}

impl<E> Default for Mode<E> {
    fn default() -> (r: Self)
        ensures
            r is Request,
    {
        Mode::Request
    }
}

} // verus!
