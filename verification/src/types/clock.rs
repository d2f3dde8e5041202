//! Cycle counts.

use vstd::prelude::*;

verus! {

/// A number of clock cycles: a relative difference between two points in
/// time.
#[derive(Debug, Clone, Copy, PartialEq, Eq, Structural)]
pub struct Cycles(pub usize);

impl Cycles {
    /// The number of cycles.
    pub fn count(self) -> (r: usize)
        ensures
            r == self.0,
    {
        self.0
    }

    /// `self` repeated `rhs` times.
    pub fn mul(self, rhs: usize) -> (r: Self)
        requires
            self.0 * rhs <= usize::MAX,
        ensures
            r.0 == self.0 * rhs,
    {
        Cycles(self.0 * rhs)
    }

    /// `self` divided by `rhs`, rounded down.
    pub fn div(self, rhs: usize) -> (r: Self)
        requires
            rhs > 0,
        ensures
            r.0 == self.0 / rhs,
    {
        Cycles(self.0 / rhs)
    }

    /// Sum of two cycle counts.
    pub fn add(self, rhs: Self) -> (r: Self)
        requires
            self.0 + rhs.0 <= usize::MAX,
        ensures
            r.0 == self.0 + rhs.0,
    {
        Cycles(self.0 + rhs.0)
    }

    /// Difference of two cycle counts.
    pub fn sub(self, rhs: Self) -> (r: Self)
        requires
            self.0 >= rhs.0,
        ensures
            r.0 == self.0 - rhs.0,
    {
        Cycles(self.0 - rhs.0)
    }
}

/// Integers that count clock cycles.
pub trait CyclesType {
    /// The number that the integer holds.
    spec fn count(&self) -> int;

    /// The number of cycles that the integer counts; it must be a count
    /// that fits in `usize`.
    fn cycles(&self) -> (r: Cycles)
        requires
            0 <= self.count() <= usize::MAX,
        ensures
            r.0 == self.count(),
    ;
}

impl CyclesType for usize {
    open spec fn count(&self) -> int {
        *self as int
    }

    fn cycles(&self) -> (r: Cycles) {
        Cycles(*self)
    }
}

impl CyclesType for u64 {
    open spec fn count(&self) -> int {
        *self as int
    }

    fn cycles(&self) -> (r: Cycles) {
        Cycles(*self as usize)
    }
}

impl CyclesType for u32 {
    open spec fn count(&self) -> int {
        *self as int
    }

    fn cycles(&self) -> (r: Cycles) {
        Cycles(*self as usize)
    }
}

impl CyclesType for u16 {
    open spec fn count(&self) -> int {
        *self as int
    }

    fn cycles(&self) -> (r: Cycles) {
        Cycles(*self as usize)
    }
}

impl CyclesType for u8 {
    open spec fn count(&self) -> int {
        *self as int
    }

    fn cycles(&self) -> (r: Cycles) {
        Cycles(*self as usize)
    }
}

impl CyclesType for u128 {
    open spec fn count(&self) -> int {
        *self as int
    }

    fn cycles(&self) -> (r: Cycles) {
        Cycles(*self as usize)
    }
}

impl CyclesType for isize {
    open spec fn count(&self) -> int {
        *self as int
    }

    fn cycles(&self) -> (r: Cycles) {
        Cycles(*self as usize)
    }
}

impl CyclesType for i64 {
    open spec fn count(&self) -> int {
        *self as int
    }

    fn cycles(&self) -> (r: Cycles) {
        Cycles(*self as usize)
    }
}

impl CyclesType for i32 {
    open spec fn count(&self) -> int {
        *self as int
    }

    fn cycles(&self) -> (r: Cycles) {
        Cycles(*self as usize)
    }
}

impl CyclesType for i16 {
    open spec fn count(&self) -> int {
        *self as int
    }

    fn cycles(&self) -> (r: Cycles) {
        Cycles(*self as usize)
    }
}

impl CyclesType for i8 {
    open spec fn count(&self) -> int {
        *self as int
    }

    fn cycles(&self) -> (r: Cycles) {
        Cycles(*self as usize)
    }
}

impl CyclesType for i128 {
    open spec fn count(&self) -> int {
        *self as int
    }

    fn cycles(&self) -> (r: Cycles) {
        Cycles(*self as usize)
    }
}

} // verus!
