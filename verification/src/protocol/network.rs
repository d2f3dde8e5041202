//! Network protocol: a payload of another protocol framed with a source and
//! a destination, to model the layers of a network.

use vstd::prelude::*;
use crate::port::packet::{Packet, PacketOptions};
use crate::protocol::Mode;
use crate::scheduler::Tick;
use crate::module::UidGen;
use crate::types::history::{Handler, History};

verus! {

/// Why a frame failed.
#[derive(Debug)]
pub enum NetworkError {
    /// A request came back as a response.
    ReqAsResp,
    /// A response was sent as a request.
    RespAsReq,
    /// The destination cannot be reached.
    Unreachable,
    /// The entry is already used; the binding is wrong.
    AlreadyUsed,
    /// The inner protocol failed, with its message.
    Inner(String),
}

impl NetworkError {
    /// A copy of the error.
    pub fn duplicate(&self) -> (r: Self)
        ensures
            r == *self,
    {
        match self {
            NetworkError::ReqAsResp => NetworkError::ReqAsResp,
            NetworkError::RespAsReq => NetworkError::RespAsReq,
            NetworkError::Unreachable => NetworkError::Unreachable,
            NetworkError::AlreadyUsed => NetworkError::AlreadyUsed,
            NetworkError::Inner(s) => NetworkError::Inner(s.clone()),
        }
    }
}

/// A frame from `from` to `to` carrying `payload`, with its handling
/// history.
#[derive(Debug)]
pub struct Network<T, P> {
    mode: Mode<NetworkError>,
    from: T,
    to: T,
    payload: P,
    trace: History<()>,
}

impl<T, P> Network<T, P> {
    pub closed spec fn spec_mode(&self) -> Mode<NetworkError> {
        self.mode
    }

    pub closed spec fn spec_from(&self) -> T {
        self.from
    }

    pub closed spec fn spec_to(&self) -> T {
        self.to
    }

    pub closed spec fn spec_payload(&self) -> P {
        self.payload
    }

    /// The handlings, in order.
    pub closed spec fn spec_trace(&self) -> Seq<Handler<()>> {
        self.trace@
    }

    pub closed spec fn wf(&self) -> bool {
        self.trace.wf()
    }

    /// A request frame with no handling yet.
    pub fn new(from: T, to: T, payload: P) -> (r: Self)
        ensures
            r.wf(),
            r.spec_mode() is Request,
            r.spec_from() == from,
            r.spec_to() == to,
            r.spec_payload() == payload,
            r.spec_trace() == Seq::<Handler<()>>::empty(),
    {
        Network { mode: Mode::Request, from, to, payload, trace: History::new() }
    }

    /// Record a plain handling by module `uid` at `cur_tick`.
    pub fn wrap_up(&mut self, uid: usize, cur_tick: Tick)
        requires
            old(self).wf(),
            old(self).spec_trace().len() < usize::MAX,
        ensures
            final(self).wf(),
            final(self).spec_trace() == old(self).spec_trace().push(
                Handler::Base { tick: cur_tick, uid },
            ),
            final(self).spec_mode() == old(self).spec_mode(),
            final(self).spec_from() == old(self).spec_from(),
            final(self).spec_to() == old(self).spec_to(),
            final(self).spec_payload() == old(self).spec_payload(),
    {
        self.trace.push(Handler::base(uid, cur_tick));
    }

    /// Check a received response: a request, or a failed frame, is refused.
    pub fn rx_check(&self) -> (r: Result<(), NetworkError>)
        ensures
            match self.spec_mode() {
                Mode::Request => r == Err::<(), NetworkError>(NetworkError::ReqAsResp),
                Mode::Response => r is Ok,
                Mode::Error(e) => r == Err::<(), NetworkError>(e),
            },
    {
        match &self.mode {
            Mode::Request => Err(NetworkError::ReqAsResp),
            Mode::Response => Ok(()),
            Mode::Error(e) => Err(e.duplicate()),
        }
    }

    /// Check a request before sending it: a response, or a failed frame, is
    /// refused.
    pub fn tx_check(&self) -> (r: Result<(), NetworkError>)
        ensures
            match self.spec_mode() {
                Mode::Response => r == Err::<(), NetworkError>(NetworkError::RespAsReq),
                Mode::Request => r is Ok,
                Mode::Error(e) => r == Err::<(), NetworkError>(e),
            },
    {
        match &self.mode {
            Mode::Response => Err(NetworkError::RespAsReq),
            Mode::Request => Ok(()),
            Mode::Error(e) => Err(e.duplicate()),
        }
    }

    pub fn set_mode(&mut self, mode: Mode<NetworkError>)
        ensures
            final(self).spec_mode() == mode,
            final(self).spec_from() == old(self).spec_from(),
            final(self).spec_to() == old(self).spec_to(),
            final(self).spec_payload() == old(self).spec_payload(),
            final(self).spec_trace() == old(self).spec_trace(),
            final(self).wf() == old(self).wf(),
    {
        self.mode = mode;
    }

    /// The handlings, in order.
    pub fn trace(&self) -> (r: &History<()>)
        ensures
            r@ == self.spec_trace(),
            self.wf() ==> r.wf(),
    {
        &self.trace
    }

    pub fn from(&self) -> (r: &T)
        ensures
            *r == self.spec_from(),
    {
        &self.from
    }

    pub fn to(&self) -> (r: &T)
        ensures
            *r == self.spec_to(),
    {
        &self.to
    }

    pub fn payload(&self) -> (r: &P)
        ensures
            *r == self.spec_payload(),
    {
        &self.payload
    }

    /// The payload, out of the frame.
    pub fn into_payload(self) -> (r: P)
        ensures
            r == self.spec_payload(),
    {
        self.payload
    }
}

impl<T, P> Packet<Network<T, P>> {
    /// The packet of the inner protocol, as a new packet (with the next id
    /// of `uids`, made at `cur_tick`) that keeps the timing flag, the session
    /// and the delay not yet paid.
    pub fn inner_unwrap(self, uids: &mut UidGen, cur_tick: Tick) -> (r: Packet<P>)
        requires
            old(uids).issued() < usize::MAX,
        ensures
            final(uids).issued() == old(uids).issued() + 1,
            r.spec_payload() == self.spec_payload().spec_payload(),
            r.spec_timed() == self.spec_timed(),
            r.spec_sid() == self.spec_sid(),
            r.spec_uid() == old(uids).issued(),
            r.spec_ready_at() == if self.spec_ready_at() > cur_tick {
                self.spec_ready_at()
            } else {
                cur_tick
            },
    {
        let timed = self.timed();
        let sid = *self.sid();
        let delay = self.delay(cur_tick);
        let frame = self.unwrap_payload();
        Packet::wrap_payload(frame.into_payload(), PacketOptions { timed, sid, delay }, uids, cur_tick)
    }

    /// Frame the packet of an inner protocol from `from` to `to`, as a new
    /// packet (with the next id of `uids`, made at `cur_tick`) that keeps the
    /// timing flag, the session and the delay not yet paid.
    pub fn inner_wrap(from: T, to: T, inner: Packet<P>, uids: &mut UidGen, cur_tick: Tick) -> (r: Self)
        requires
            old(uids).issued() < usize::MAX,
        ensures
            final(uids).issued() == old(uids).issued() + 1,
            r.spec_payload().spec_payload() == inner.spec_payload(),
            r.spec_payload().spec_from() == from,
            r.spec_payload().spec_to() == to,
            r.spec_payload().spec_mode() is Request,
            r.spec_payload().spec_trace() == Seq::<Handler<()>>::empty(),
            r.spec_payload().wf(),
            r.spec_timed() == inner.spec_timed(),
            r.spec_sid() == inner.spec_sid(),
            r.spec_uid() == old(uids).issued(),
            r.spec_ready_at() == if inner.spec_ready_at() > cur_tick {
                inner.spec_ready_at()
            } else {
                cur_tick
            },
    {
        let timed = inner.timed();
        let sid = *inner.sid();
        let delay = inner.delay(cur_tick);
        let payload = inner.unwrap_payload();
        Packet::wrap_payload(Network::new(from, to, payload), PacketOptions { timed, sid, delay }, uids, cur_tick)
    }
}

} // verus!
