//! A period between a start and an end event.

use vstd::prelude::*;
use crate::scheduler::Tick;

verus! {

/// A period with a start and an end event, such as a transaction lifetime.
#[derive(Debug, Clone, Copy, PartialEq, Eq, Structural)]
pub struct Span<T> {
    pub start: T,
    pub end: T,
}

impl Span<Tick> {
    /// Number of ticks from start to end.
    pub fn duration(&self) -> (r: Tick)
        requires
            self.start <= self.end,
        ensures
            r == self.end - self.start,
    {
        self.end - self.start
    }
}

} // verus!
