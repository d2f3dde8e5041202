//! Containers dedicated to simulation: fixed capacity vectors that only grow,
//! small stores that live inline until they overflow, and large memories.

pub mod growonly;
pub mod preallocatedstore;
pub mod sparse_vec;

use vstd::prelude::*;

verus! {

/// Errors of the containers.
#[derive(Debug, Clone, Copy, PartialEq, Eq)]
pub enum ContainerError {
    /// The container is full; it holds the capacity.
    SizeExceeded(usize),
}

} // verus!
