//! Direct memory access protocol: a deferred transfer from one addressable
//! space to another.

use vstd::prelude::*;
use crate::protocol::Mode;
use crate::protocol::addr::Pattern;
use crate::scheduler::Tick;
use crate::types::history::{Handler, History};

verus! {

/// Why a transfer failed.
#[derive(Debug)]
pub enum DmaBusError {
    /// A request came back as a response.
    ReqAsResp,
    /// A response was sent as a request.
    RespAsReq,
    /// The target failed, with its message.
    Inner(String),
}

impl DmaBusError {
    /// A copy of the error.
    pub fn duplicate(&self) -> (r: Self)
        ensures
            r == *self,
    {
        match self {
            DmaBusError::ReqAsResp => DmaBusError::ReqAsResp,
            DmaBusError::RespAsReq => DmaBusError::RespAsReq,
            DmaBusError::Inner(s) => DmaBusError::Inner(s.clone()),
        }
    }
}

/// A transfer from `read_from` to `write_to`, with its pattern and its
/// handling history.
#[derive(Debug)]
pub struct DmaBus<T> {
    mode: Mode<DmaBusError>,
    read_from: T,
    write_to: T,
    pattern: Pattern,
    trace: History<()>,
}

impl<T> DmaBus<T> {
    pub closed spec fn spec_mode(&self) -> Mode<DmaBusError> {
        self.mode
    }

    pub closed spec fn spec_read_from(&self) -> T {
        self.read_from
    }

    pub closed spec fn spec_write_to(&self) -> T {
        self.write_to
    }

    pub closed spec fn spec_pattern(&self) -> Pattern {
        self.pattern
    }

    /// The handlings, in order.
    pub closed spec fn spec_trace(&self) -> Seq<Handler<()>> {
        self.trace@
    }

    pub closed spec fn wf(&self) -> bool {
        self.trace.wf()
    }

    /// A transfer request with no handling yet.
    pub fn new(read_from: T, write_to: T, pattern: Pattern) -> (r: Self)
        ensures
            r.wf(),
            r.spec_mode() is Request,
            r.spec_read_from() == read_from,
            r.spec_write_to() == write_to,
            r.spec_pattern() == pattern,
            r.spec_trace() == Seq::<Handler<()>>::empty(),
    {
        DmaBus { mode: Mode::Request, read_from, write_to, pattern, trace: History::new() }
    }

    /// Record a plain handling by module `uid` at `cur_tick`.
    pub fn wrap_up(&mut self, uid: usize, cur_tick: Tick)
        requires
            old(self).wf(),
            old(self).spec_trace().len() < usize::MAX,
        ensures
            final(self).wf(),
            final(self).spec_trace() == old(self).spec_trace().push(
                Handler::Base { tick: cur_tick, uid },
            ),
            final(self).spec_mode() == old(self).spec_mode(),
            final(self).spec_read_from() == old(self).spec_read_from(),
            final(self).spec_write_to() == old(self).spec_write_to(),
            final(self).spec_pattern() == old(self).spec_pattern(),
    {
        self.trace.push(Handler::base(uid, cur_tick));
    }

    /// Check a received response: a request, or a failed transfer, is
    /// refused.
    pub fn rx_check(&self) -> (r: Result<(), DmaBusError>)
        ensures
            match self.spec_mode() {
                Mode::Request => r == Err::<(), DmaBusError>(DmaBusError::ReqAsResp),
                Mode::Response => r is Ok,
                Mode::Error(e) => r == Err::<(), DmaBusError>(e),
            },
    {
        match &self.mode {
            Mode::Request => Err(DmaBusError::ReqAsResp),
            Mode::Response => Ok(()),
            Mode::Error(e) => Err(e.duplicate()),
        }
    }

    /// Check a request before sending it: a response, or a failed transfer,
    /// is refused.
    pub fn tx_check(&self) -> (r: Result<(), DmaBusError>)
        ensures
            match self.spec_mode() {
                Mode::Response => r == Err::<(), DmaBusError>(DmaBusError::RespAsReq),
                Mode::Request => r is Ok,
                Mode::Error(e) => r == Err::<(), DmaBusError>(e),
            },
    {
        match &self.mode {
            Mode::Response => Err(DmaBusError::RespAsReq),
            Mode::Request => Ok(()),
            Mode::Error(e) => Err(e.duplicate()),
        }
    }

    pub fn set_mode(&mut self, mode: Mode<DmaBusError>)
        ensures
            final(self).spec_mode() == mode,
            final(self).spec_read_from() == old(self).spec_read_from(),
            final(self).spec_write_to() == old(self).spec_write_to(),
            final(self).spec_pattern() == old(self).spec_pattern(),
            final(self).spec_trace() == old(self).spec_trace(),
            final(self).wf() == old(self).wf(),
    {
        self.mode = mode;
    }

    /// The handlings, in order.
    pub fn trace(&self) -> (r: &History<()>)
        ensures
            r@ == self.spec_trace(),
            self.wf() ==> r.wf(),
    {
        &self.trace
    }

    pub fn read_from(&self) -> (r: &T)
        ensures
            *r == self.spec_read_from(),
    {
        &self.read_from
    }

    pub fn write_to(&self) -> (r: &T)
        ensures
            *r == self.spec_write_to(),
    {
        &self.write_to
    }

    pub fn pattern(&self) -> (r: Pattern)
        ensures
            r == self.spec_pattern(),
    {
        self.pattern
    }
}

} // verus!
