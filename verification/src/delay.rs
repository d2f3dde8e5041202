//! Waiting for simulated time.
//!
//! A delay lets a hardware process wait for a number of ticks relative to the
//! current one, or until an absolute tick. The scheduler wakes it up.

use vstd::prelude::*;
use crate::scheduler::Tick;

verus! {

/// A pending wait of a hardware process.
#[derive(Debug)]
pub struct Delay {
    wake_at: Tick,
    forged_at: Tick,
    order_pushed: bool,
}

/// Outcome of polling a delay.
#[derive(Debug, Clone, Copy, PartialEq, Eq, Structural)]
pub enum DelayPoll {
    /// The wake-up tick is reached.
    Ready,
    /// Still waiting; when the order has to be pushed to the scheduler, the
    /// tick to wait until.
    Pending(Option<Tick>),
}

impl Delay {
    /// The tick at which the delay ends.
    pub closed spec fn spec_wake_at(&self) -> Tick {
        self.wake_at
    }

    /// The tick at which the delay was created.
    pub closed spec fn spec_forged_at(&self) -> Tick {
        self.forged_at
    }

    /// Whether the wait order was already sent to the scheduler.
    pub closed spec fn spec_order_pushed(&self) -> bool {
        self.order_pushed
    }

    /// Wait `delay` ticks from `cur_tick`.
    pub fn wait_for(cur_tick: Tick, delay: Tick) -> (r: Self)
        requires
            cur_tick + delay <= usize::MAX,
        ensures
            r.spec_wake_at() == cur_tick + delay,
            r.spec_forged_at() == cur_tick,
            !r.spec_order_pushed(),
    {
        let forged_at = cur_tick;
        let wake_at = forged_at + delay;
        Delay { wake_at, forged_at, order_pushed: false }
    }

    /// Wait until the absolute tick `tick`, from `cur_tick`.
    pub fn wait_until(cur_tick: Tick, tick: Tick) -> (r: Self)
        ensures
            r.spec_wake_at() == tick,
            r.spec_forged_at() == cur_tick,
            !r.spec_order_pushed(),
    {
        Delay { wake_at: tick, forged_at: cur_tick, order_pushed: false }
    }

    /// The tick at which the delay ends.
    pub fn wake_at(&self) -> (r: Tick)
        ensures
            r == self.spec_wake_at(),
    {
        self.wake_at
    }

    /// The tick at which the delay was created.
    pub fn forged_at(&self) -> (r: Tick)
        ensures
            r == self.spec_forged_at(),
    {
        self.forged_at
    }

    /// Poll the delay at tick `ltick`. A pending delay must be awaited at the
    /// tick it was created; its wait order is sent once.
    pub fn poll(&mut self, ltick: Tick) -> (r: DelayPoll)
        requires
            ltick >= old(self).spec_wake_at() || ltick == old(self).spec_forged_at(),
        ensures
            final(self).spec_wake_at() == old(self).spec_wake_at(),
            final(self).spec_forged_at() == old(self).spec_forged_at(),
            ltick >= old(self).spec_wake_at() ==> r == DelayPoll::Ready && final(self).spec_order_pushed() == old(self).spec_order_pushed(),
            ltick < old(self).spec_wake_at() && !old(self).spec_order_pushed() ==> r
                == DelayPoll::Pending(Some(old(self).spec_wake_at())) && final(self).spec_order_pushed(),
            ltick < old(self).spec_wake_at() && old(self).spec_order_pushed() ==> r
                == DelayPoll::Pending(None) && final(self).spec_order_pushed(),
    {
        if ltick >= self.wake_at {
            DelayPoll::Ready
        } else if !self.order_pushed {
            self.order_pushed = true;
            DelayPoll::Pending(Some(self.wake_at))
        } else {
            DelayPoll::Pending(None)
        }
    }
}

} // verus!
