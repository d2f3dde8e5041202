//! Point to point communication between hardware modules: packets, their
//! delays, and the dispatch of tagged packets over sessions.

pub mod packet;
pub mod dispatch;

use vstd::prelude::*;
use crate::containers::ContainerError;
use crate::containers::growonly::GrowOnlyVec;
use crate::naming::{decimal, decimal_text};
use vstd::string::StringExecFns;

verus! {

/// The packet capacity of a channel between two endpoints: exactly one of
/// them must set it.
pub fn resolve_inflight(tx: Option<usize>, rx: Option<usize>) -> (r: Option<usize>)
    ensures
        r == (match (tx, rx) {
            (Some(p), None) => Some(p),
            (None, Some(p)) => Some(p),
            _ => None,
        }),
{
    match (tx, rx) {
        (Some(pkt_ift), None) => Some(pkt_ift),
        (None, Some(pkt_ift)) => Some(pkt_ift),
        _ => None,
    }
}

/// Why two ports cannot be bound.
#[derive(Debug)]
pub enum PortError {
    /// Exactly one endpoint must set the packet capacity: the endpoints and
    /// what they set.
    Inflight(String, Option<usize>, String, Option<usize>),
    /// The pair of endpoints is not supported: the endpoint, and the two
    /// handles.
    InvalEp(String, String, String),
    /// An endpoint is already bound: the endpoints and whether each is.
    AlrdyBind(String, bool, String, bool),
}

/// The endpoints that a port offers for binding: a sending one, a
/// receiving one, or both.
#[derive(Debug, Clone, Copy, PartialEq, Eq, Structural)]
pub enum HandleKind {
    TxOnly,
    RxOnly,
    TxRx,
}

/// Which endpoint of the other port a port binds to.
#[derive(Debug, Clone, Copy, PartialEq, Eq, Structural)]
pub enum Peer {
    Tx,
    Rx,
}

/// The endpoint of a port offering `with` that a sending (or receiving)
/// port binds to: the opposite one; `None` when the other port offers none
/// (the pair is not supported).
pub fn peer_endpoint(sending: bool, with: HandleKind) -> (r: Option<Peer>)
    ensures
        sending ==> r == match with {
            HandleKind::TxOnly => None,
            _ => Some(Peer::Rx),
        },
        !sending ==> r == match with {
            HandleKind::RxOnly => None,
            _ => Some(Peer::Tx),
        },
{
    match (sending, with) {
        (true, HandleKind::TxOnly) => None,
        (true, _) => Some(Peer::Rx),
        (false, HandleKind::RxOnly) => None,
        (false, _) => Some(Peer::Tx),
    }
}

/// Why a channel cannot be connected to an endpoint.
#[derive(Debug)]
pub enum EndpointError {
    /// The endpoint was not given the handles that suit it: the endpoint.
    Handle(String),
    /// The endpoint is already bound: the endpoint and whether it is.
    AlrdyBind(String, bool),
    /// The channel carries another type of packets: the endpoint and the
    /// type it carries.
    Downcast(String, String),
}

/// Whether the channel handles given to an endpoint can be connected to it:
/// an endpoint that is already bound refuses them, and a sending endpoint
/// takes a sending handle only, a receiving one a receiving handle only.
pub fn check_connect(endpoint: String, binded: bool, sending: bool, has_tx: bool, has_rx: bool) -> (r: Result<(), EndpointError>)
    ensures
        binded ==> r == Err::<(), EndpointError>(EndpointError::AlrdyBind(endpoint, true)),
        !binded && (if sending { has_tx && !has_rx } else { !has_tx && has_rx }) ==> r is Ok,
        !binded && !(if sending { has_tx && !has_rx } else { !has_tx && has_rx })
            ==> r == Err::<(), EndpointError>(EndpointError::Handle(endpoint)),
{
    if binded {
        return Err(EndpointError::AlrdyBind(endpoint, true));
    }
    let suits = if sending { has_tx && !has_rx } else { !has_tx && has_rx };
    if suits {
        Ok(())
    } else {
        Err(EndpointError::Handle(endpoint))
    }
}

/// A growing set of ports of one kind on a module boundary, up to a
/// capacity; port `i` is named `{name}_{i}`.
#[derive(Debug)]
pub struct PortVec<P> {
    name: String,
    pkt_inflight: Option<usize>,
    sid_width: Option<usize>,
    port_vec: GrowOnlyVec<P>,
}

impl<P> PortVec<P> {
    /// The ports, in creation order.
    pub closed spec fn view(&self) -> Seq<P> {
        self.port_vec@
    }

    /// Number of ports.
    pub closed spec fn spec_len(&self) -> nat {
        self.port_vec@.len()
    }

    pub closed spec fn spec_capacity(&self) -> nat {
        self.port_vec.spec_capacity()
    }

    pub closed spec fn spec_name(&self) -> Seq<char> {
        self.name@
    }

    pub closed spec fn spec_pkt_inflight(&self) -> Option<usize> {
        self.pkt_inflight
    }

    pub closed spec fn spec_sid_width(&self) -> Option<usize> {
        self.sid_width
    }

    /// No port yet, room for `capacity`.
    pub fn new(capacity: usize, name: &str, pkt_inflight: Option<usize>, sid_width: Option<usize>) -> (r: Self)
        ensures
            r@ == Seq::<P>::empty(),
            r.spec_len() == 0,
            r.spec_capacity() == capacity,
            r.spec_name() == name@,
            r.spec_pkt_inflight() == pkt_inflight,
            r.spec_sid_width() == sid_width,
    {
        PortVec {
            name: String::from_str(name),
            pkt_inflight,
            sid_width,
            port_vec: GrowOnlyVec::new(capacity),
        }
    }

    /// Number of ports, never more than the capacity.
    pub fn len(&self) -> (r: usize)
        ensures
            r == self.spec_len(),
            r <= self.spec_capacity(),
    {
        self.port_vec.len()
    }

    /// The ports.
    pub fn as_slice(&self) -> (r: &[P])
        ensures
            r@ == self@,
    {
        self.port_vec.as_slice()
    }

    /// The packet capacity and session width that new ports get.
    pub fn settings(&self) -> (r: (Option<usize>, Option<usize>))
        ensures
            r == (self.spec_pkt_inflight(), self.spec_sid_width()),
    {
        (self.pkt_inflight, self.sid_width)
    }

    /// The name of the next port: `{name}_{len}`.
    pub fn next_port_name(&self) -> (r: String)
        ensures
            r@ == self.spec_name() + seq!['_'] + decimal(self.spec_len()),
    {
        let under = "_";
        proof {
            reveal_strlit("_");
        }
        let digits = decimal_text(self.port_vec.len());
        let r = self.name.clone().concat(under).concat(digits.as_str());
        proof {
            assert(r@ =~= self.spec_name() + seq!['_'] + decimal(self.spec_len()));
        }
        r
    }

    /// Add the next port (made with the name `next_port_name` gives) and
    /// return its index; beyond the capacity it is refused and nothing
    /// changes.
    pub fn next_port(&mut self, port: P) -> (r: Result<usize, ContainerError>)
        ensures
            final(self).spec_capacity() == old(self).spec_capacity(),
            final(self).spec_name() == old(self).spec_name(),
            final(self).spec_pkt_inflight() == old(self).spec_pkt_inflight(),
            final(self).spec_sid_width() == old(self).spec_sid_width(),
            old(self).spec_len() < old(self).spec_capacity() ==> r == Ok::<usize, ContainerError>(
                old(self).spec_len() as usize,
            ) && final(self)@ == old(self)@.push(port),
            old(self).spec_len() >= old(self).spec_capacity() ==> r == Err::<usize, ContainerError>(
                ContainerError::SizeExceeded(old(self).spec_capacity() as usize),
            ) && final(self)@ == old(self)@,
    {
        self.port_vec.inner_mut_push(port)
    }
}

} // verus!
