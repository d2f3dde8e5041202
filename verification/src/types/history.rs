//! Handling history of a traced object: the modules that handled it, and
//! when, in handling order.

use vstd::prelude::*;
use std::collections::HashMap;
use crate::containers::preallocatedstore::PreAllocatedStore;
use crate::scheduler::Tick;
use crate::types::span::Span;

verus! {

broadcast use vstd::std_specs::hash::group_hash_axioms;

/// Number of inline entries of a history.
pub const STATIC_TRACE_SIZE: usize = 32;

/// Path taken through a component that switches traffic over several paths.
#[derive(Debug, Clone, Copy, PartialEq, Eq, Structural)]
pub enum SwitchPath {
    /// Source to destination.
    Forward(usize, usize),
    /// Destination back to source.
    Backward(usize, usize),
}

/// Progress of a multi-stage computation: `stage` stages done out of
/// `stages`.
#[derive(Debug, Clone, Copy, PartialEq, Eq, Structural)]
pub struct PipeStatus {
    stage: usize,
    stages: usize,
}

impl PipeStatus {
    pub closed spec fn spec_stage(&self) -> usize {
        self.stage
    }

    pub closed spec fn spec_stages(&self) -> usize {
        self.stages
    }

    /// Progress after `cur_stage` of `stages` stages; the quotient is at most
    /// one.
    pub fn from_qotient(cur_stage: usize, stages: usize) -> (r: Self)
        requires
            cur_stage <= stages,
        ensures
            r.spec_stage() == cur_stage,
            r.spec_stages() == stages,
    {
        PipeStatus { stage: cur_stage, stages }
    }

    /// Stages done.
    pub fn stage(&self) -> (r: usize)
        ensures
            r == self.spec_stage(),
    {
        self.stage
    }

    /// Stages in all.
    pub fn stages(&self) -> (r: usize)
        ensures
            r == self.spec_stages(),
    {
        self.stages
    }
}

/// One handling of a traced object: when and by which module, with what
/// the handling kind records.
#[derive(Debug, Clone, Copy)]
pub enum Handler<T> {
    /// No handling recorded.
    Unset,
    /// Plain handling.
    Base { tick: Tick, uid: usize },
    /// Handling by stage `pid` of a pipeline.
    Pipe { tick: Tick, uid: usize, pid: usize, status: PipeStatus },
    /// Handling by a switch.
    Switch { tick: Tick, uid: usize, path: SwitchPath },
    /// Handling with data of the user's own.
    Custom { tick: Tick, uid: usize, data: T },
}

impl<T> Default for Handler<T> {
    fn default() -> (r: Self)
        ensures
            r is Unset,
    {
        Handler::Unset
    }
}

impl<T> Handler<T> {
    /// Tick of the handling (none for `Unset`).
    pub open spec fn spec_tick(&self) -> Tick {
        match *self {
            Handler::Base { tick, .. } => tick,
            Handler::Pipe { tick, .. } => tick,
            Handler::Switch { tick, .. } => tick,
            Handler::Custom { tick, .. } => tick,
            Handler::Unset => 0,
        }
    }

    /// Module of the handling (none for `Unset`).
    pub open spec fn spec_uid(&self) -> usize {
        match *self {
            Handler::Base { uid, .. } => uid,
            Handler::Pipe { uid, .. } => uid,
            Handler::Switch { uid, .. } => uid,
            Handler::Custom { uid, .. } => uid,
            Handler::Unset => 0,
        }
    }

    /// A plain handling by module `uid` at `cur_tick`.
    pub fn base(uid: usize, cur_tick: Tick) -> (r: Self)
        ensures
            r == (Handler::<T>::Base { tick: cur_tick, uid }),
    {
        Handler::Base { tick: cur_tick, uid }
    }

    /// A handling by module `uid` at `cur_tick` with data of the user.
    pub fn custom(uid: usize, data: T, cur_tick: Tick) -> (r: Self)
        ensures
            r == (Handler::Custom { tick: cur_tick, uid, data }),
    {
        Handler::Custom { tick: cur_tick, uid, data }
    }

    /// A handling by stage `pid` of the pipeline of module `uid`.
    pub fn pipe(uid: usize, pid: usize, status: PipeStatus, cur_tick: Tick) -> (r: Self)
        ensures
            r == (Handler::<T>::Pipe { tick: cur_tick, uid, pid, status }),
    {
        Handler::Pipe { tick: cur_tick, uid, pid, status }
    }

    /// A handling by switch `uid` along `path`.
    pub fn switch(uid: usize, path: SwitchPath, cur_tick: Tick) -> (r: Self)
        ensures
            r == (Handler::<T>::Switch { tick: cur_tick, uid, path }),
    {
        Handler::Switch { tick: cur_tick, uid, path }
    }

    /// Tick of the handling.
    pub fn tick(&self) -> (r: Tick)
        requires
            !(self is Unset),
        ensures
            r == self.spec_tick(),
    {
        match *self {
            Handler::Base { tick, .. } => tick,
            Handler::Pipe { tick, .. } => tick,
            Handler::Switch { tick, .. } => tick,
            Handler::Custom { tick, .. } => tick,
            Handler::Unset => 0,
        }
    }

    /// Module of the handling.
    pub fn uid(&self) -> (r: usize)
        requires
            !(self is Unset),
        ensures
            r == self.spec_uid(),
    {
        match *self {
            Handler::Base { uid, .. } => uid,
            Handler::Pipe { uid, .. } => uid,
            Handler::Switch { uid, .. } => uid,
            Handler::Custom { uid, .. } => uid,
            Handler::Unset => 0,
        }
    }
}

/// Spans of the modules met in the first `i` handlings of `h`: a module's
/// span starts at its first handling and ends at its last one; a module met
/// once ends at the handling that follows it, or at 0 when none does.
pub open spec fn spans_upto<T>(h: Seq<Handler<T>>, i: nat) -> Map<usize, Span<Tick>>
    decreases i,
{
    if i == 0 || i > h.len() {
        Map::empty()
    } else {
        let m = spans_upto(h, (i - 1) as nat);
        let e = h[i - 1];
        if m.contains_key(e.spec_uid()) {
            m.insert(e.spec_uid(), Span { start: m[e.spec_uid()].start, end: e.spec_tick() })
        } else {
            m.insert(
                e.spec_uid(),
                Span {
                    start: e.spec_tick(),
                    end: if i < h.len() {
                        h[i as int].spec_tick()
                    } else {
                        0
                    },
                },
            )
        }
    }
}

/// Every handling of `h` is recorded.
pub open spec fn all_set<T>(h: Seq<Handler<T>>) -> bool {
    forall|i: int| 0 <= i < h.len() ==> !(#[trigger] h[i] is Unset)
}

/// The handlings of a traced object, in order.
#[derive(Debug)]
pub struct History<T> {
    store: PreAllocatedStore<Handler<T>, STATIC_TRACE_SIZE>,
}

impl<T> History<T> {
    /// The handlings, in order.
    pub closed spec fn view(&self) -> Seq<Handler<T>> {
        self.store@
    }

    pub closed spec fn wf(&self) -> bool {
        self.store.wf()
    }

    /// Number of handlings.
    pub fn len(&self) -> (r: usize)
        requires
            self.wf(),
        ensures
            r == self@.len(),
    {
        self.store.len()
    }

    /// The handlings, in order.
    pub fn as_slice(&self) -> (r: &[Handler<T>])
        requires
            self.wf(),
        ensures
            r@ == self@,
    {
        self.store.as_slice()
    }

    /// Ticks from the first handling to the last; 0 without handling.
    pub fn duration_tick(&self) -> (r: Tick)
        requires
            self.wf(),
            self@.len() > 0 ==> !(self@[0] is Unset) && !(self@.last() is Unset)
                && self@[0].spec_tick() <= self@.last().spec_tick(),
        ensures
            r == if self@.len() == 0 {
                0
            } else {
                (self@.last().spec_tick() - self@[0].spec_tick()) as Tick
            },
    {
        let hist = self.store.as_slice();
        if hist.len() == 0 {
            0
        } else {
            hist[hist.len() - 1].tick() - hist[0].tick()
        }
    }

    /// The span of each module met, by module uid (see `spans_upto`).
    pub fn spans(&self) -> (r: HashMap<usize, Span<Tick>>)
        requires
            self.wf(),
            all_set(self@),
        ensures
            r@ == spans_upto(self@, self@.len()),
    {
        let hist = self.store.as_slice();
        let mut spans: HashMap<usize, Span<Tick>> = HashMap::new();
        let mut i: usize = 0;
        while i < hist.len()
            invariant
                hist@ == self@,
                all_set(self@),
                0 <= i <= hist@.len(),
                spans@ == spans_upto(hist@, i as nat),
            decreases hist.len() - i,
        {
            let uid = hist[i].uid();
            let tick = hist[i].tick();
            let start = match spans.get(&uid) {
                Some(sp) => Some(sp.start),
                None => None,
            };
            match start {
                Some(s) => {
                    spans.insert(uid, Span { start: s, end: tick });
                },
                None => {
                    let end = if i + 1 < hist.len() {
                        hist[i + 1].tick()
                    } else {
                        0
                    };
                    spans.insert(uid, Span { start: tick, end });
                },
            }
            i = i + 1;
        }
        spans
    }
}

impl<T: Copy> History<T> {
    /// An empty history.
    pub fn new() -> (r: Self)
        ensures
            r.wf(),
            r@ == Seq::<Handler<T>>::empty(),
    {
        History { store: PreAllocatedStore::Static(0, [Handler::Unset; STATIC_TRACE_SIZE]) }
    }

    /// Record one more handling.
    pub fn push(&mut self, handler: Handler<T>)
        requires
            old(self).wf(),
            old(self)@.len() < usize::MAX,
        ensures
            final(self).wf(),
            final(self)@ == old(self)@.push(handler),
    {
        self.store.push(handler);
    }
}

} // verus!
