//! Packets wrap a payload with what its transport needs: a unique id, an
//! optional session id, and the tick from which the payload is available.

use vstd::prelude::*;
use crate::scheduler::Tick;
use crate::module::UidGen;
use crate::time::TimingMode;

verus! {

/// A payload with its communication properties.
#[derive(Debug)]
pub struct Packet<T> {
    /// Whether the delay of the packet is awaited.
    timed: bool,
    /// Unique id, used for response reordering.
    uid: usize,
    /// Session id, used to dispatch streams of packets through ports.
    sid: Option<usize>,
    /// The data carried.
    payload: T,
    /// The payload is available from this tick on.
    ready_at: Tick,
}

/// Options of a new packet.
#[derive(Debug, Clone, Copy)]
pub struct PacketOptions {
    pub timed: bool,
    pub sid: Option<usize>,
    pub delay: Tick,
}

impl Default for PacketOptions {
    fn default() -> (r: Self)
        ensures
            r.timed,
            r.sid is None,
            r.delay == 0,
    {
        Self { timed: true, sid: None, delay: 0 }
    }
}

/// Packet errors.
#[derive(Debug, Clone, Copy, PartialEq, Eq, Structural)]
pub enum PacketError {
    /// An untagged port was used for a packet with this session id.
    UntaggedSid(usize),
    /// A tagged port was used with a packet without session id.
    TaggedNoSid,
    /// The received uid (first) is not the requested one (second).
    UidMismatch(usize, usize),
}

impl<T> Packet<T> {
    pub closed spec fn spec_timed(&self) -> bool {
        self.timed
    }

    pub closed spec fn spec_uid(&self) -> usize {
        self.uid
    }

    pub closed spec fn spec_sid(&self) -> Option<usize> {
        self.sid
    }

    pub closed spec fn spec_payload(&self) -> T {
        self.payload
    }

    pub closed spec fn spec_ready_at(&self) -> Tick {
        self.ready_at
    }

    /// Wrap a payload in a new packet created at `cur_tick`; its id is the
    /// next one of `uids`, greater than the id of every packet wrapped
    /// before from the same generator.
    pub fn wrap_payload(payload: T, options: PacketOptions, uids: &mut UidGen, cur_tick: Tick) -> (r: Self)
        requires
            cur_tick + options.delay <= usize::MAX,
            old(uids).issued() < usize::MAX,
        ensures
            r.spec_uid() == old(uids).issued(),
            final(uids).issued() == old(uids).issued() + 1,
            r.spec_timed() == options.timed,
            r.spec_sid() == options.sid,
            r.spec_payload() == payload,
            r.spec_ready_at() == cur_tick + options.delay,
    {
        let uid = uids.issue();
        Self::with_uid(payload, options, uid, cur_tick)
    }

    /// A packet with the given id, created at `cur_tick`: to wrap anew the
    /// payload of a packet that keeps its id.
    pub fn with_uid(payload: T, options: PacketOptions, uid: usize, cur_tick: Tick) -> (r: Self)
        requires
            cur_tick + options.delay <= usize::MAX,
        ensures
            r.spec_timed() == options.timed,
            r.spec_uid() == uid,
            r.spec_sid() == options.sid,
            r.spec_payload() == payload,
            r.spec_ready_at() == cur_tick + options.delay,
    {
        Self { timed: options.timed, uid, sid: options.sid, payload, ready_at: cur_tick + options.delay }
    }

    /// The payload of the packet.
    pub fn unwrap_payload(self) -> (r: T)
        ensures
            r == self.spec_payload(),
    {
        let Self { payload, .. } = self;
        payload
    }

    /// Add `delay` ticks to the time the payload is available, whatever the
    /// timing mode.
    pub fn append_delay(&mut self, delay: Tick)
        requires
            old(self).spec_ready_at() + delay <= usize::MAX,
        ensures
            final(self).spec_ready_at() == old(self).spec_ready_at() + delay,
            final(self).spec_uid() == old(self).spec_uid(),
            final(self).spec_sid() == old(self).spec_sid(),
            final(self).spec_timed() == old(self).spec_timed(),
            final(self).spec_payload() == old(self).spec_payload(),
    {
        self.ready_at = self.ready_at + delay;
    }

    /// Ticks left, from `cur_tick`, before the payload is available.
    pub fn delay(&self, cur_tick: Tick) -> (r: Tick)
        ensures
            r == (if self.spec_ready_at() > cur_tick {
                (self.spec_ready_at() - cur_tick) as usize
            } else {
                0
            }),
    {
        self.ready_at.saturating_sub(cur_tick)
    }

    /// The tick to wait until before the payload is handled: the tick it is
    /// ready at, when the packet is timed and not yet ready at `cur_tick`.
    pub fn handle_delay(&self, cur_tick: Tick) -> (r: Option<Tick>)
        ensures
            r == if self.spec_timed() && self.spec_ready_at() > cur_tick {
                Some(self.spec_ready_at())
            } else {
                None
            },
    {
        if self.timed && self.ready_at > cur_tick {
            Some(self.ready_at)
        } else {
            None
        }
    }

    /// Account for a communication delay: it is added to the packet, and in
    /// approximately timed mode it is also awaited at once (the tick to wait
    /// until is returned, as `handle_delay` gives it).
    pub fn account_delay(&mut self, delay: Option<Tick>, mode: TimingMode, cur_tick: Tick) -> (r:
        Option<Tick>)
        requires
            delay matches Some(d) ==> old(self).spec_ready_at() + d <= usize::MAX,
        ensures
            final(self).spec_ready_at() == old(self).spec_ready_at() + match delay {
                Some(d) => d,
                None => 0,
            },
            final(self).spec_uid() == old(self).spec_uid(),
            final(self).spec_sid() == old(self).spec_sid(),
            final(self).spec_timed() == old(self).spec_timed(),
            final(self).spec_payload() == old(self).spec_payload(),
            r == match mode {
                TimingMode::LT => None,
                TimingMode::AT => if final(self).spec_timed() && final(self).spec_ready_at()
                    > cur_tick {
                    Some(final(self).spec_ready_at())
                } else {
                    None
                },
            },
    {
        if let Some(d) = delay {
            self.ready_at = self.ready_at + d;
        }
        match mode {
            TimingMode::LT => None,
            TimingMode::AT => self.handle_delay(cur_tick),
        }
    }

    /// The tick from which the payload is available.
    pub fn ready_at(&self) -> (r: Tick)
        ensures
            r == self.spec_ready_at(),
    {
        self.ready_at
    }

    /// Whether the delay of the packet is awaited.
    pub fn timed(&self) -> (r: bool)
        ensures
            r == self.spec_timed(),
    {
        self.timed
    }

    pub fn set_timed(&mut self, timed: bool)
        ensures
            final(self).spec_timed() == timed,
            final(self).spec_uid() == old(self).spec_uid(),
            final(self).spec_sid() == old(self).spec_sid(),
            final(self).spec_payload() == old(self).spec_payload(),
            final(self).spec_ready_at() == old(self).spec_ready_at(),
    {
        self.timed = timed;
    }

    /// The unique id of the packet.
    pub fn uid(&self) -> (r: usize)
        ensures
            r == self.spec_uid(),
    {
        self.uid
    }

    /// The session id of the packet.
    pub fn sid(&self) -> (r: &Option<usize>)
        ensures
            *r == self.spec_sid(),
    {
        &self.sid
    }

    pub fn set_sid(&mut self, sid: Option<usize>)
        ensures
            final(self).spec_sid() == sid,
            final(self).spec_uid() == old(self).spec_uid(),
            final(self).spec_timed() == old(self).spec_timed(),
            final(self).spec_payload() == old(self).spec_payload(),
            final(self).spec_ready_at() == old(self).spec_ready_at(),
    {
        self.sid = sid;
    }

    /// The payload of the packet.
    pub fn payload(&self) -> (r: &T)
        ensures
            *r == self.spec_payload(),
    {
        &self.payload
    }

    /// The payload of the packet, to change it in place.
    pub fn payload_mut(&mut self) -> (r: &mut T)
        ensures
            *r == old(self).spec_payload(),
            final(self).spec_payload() == *final(r),
            final(self).spec_uid() == old(self).spec_uid(),
            final(self).spec_sid() == old(self).spec_sid(),
            final(self).spec_timed() == old(self).spec_timed(),
            final(self).spec_ready_at() == old(self).spec_ready_at(),
    {
        &mut self.payload
    }

    pub fn set_payload(&mut self, payload: T)
        ensures
            final(self).spec_payload() == payload,
            final(self).spec_uid() == old(self).spec_uid(),
            final(self).spec_sid() == old(self).spec_sid(),
            final(self).spec_timed() == old(self).spec_timed(),
            final(self).spec_ready_at() == old(self).spec_ready_at(),
    {
        self.payload = payload;
    }
}

impl<T> Packet<T> {
    /// A response waited for by uid: refused when its uid is not the
    /// expected one.
    pub fn expect_uid(&self, uid: Option<usize>) -> (r: Result<(), PacketError>)
        ensures
            match uid {
                None => r is Ok,
                Some(u) => if self.spec_uid() == u {
                    r is Ok
                } else {
                    r == Err::<(), PacketError>(PacketError::UidMismatch(self.spec_uid(), u))
                },
            },
    {
        match uid {
            None => Ok(()),
            Some(u) => if self.uid == u {
                Ok(())
            } else {
                Err(PacketError::UidMismatch(self.uid, u))
            },
        }
    }

    /// A packet that ends its route at an untagged port must carry no
    /// session id.
    pub fn untagged_check(&self) -> (r: Result<(), PacketError>)
        ensures
            match self.spec_sid() {
                Some(sid) => r == Err::<(), PacketError>(PacketError::UntaggedSid(sid)),
                None => r is Ok,
            },
    {
        match self.sid {
            Some(sid) => Err(PacketError::UntaggedSid(sid)),
            None => Ok(()),
        }
    }
}

/// Why a packet received at the end of its route is refused: by the packet
/// checks, or by the check of its payload.
#[derive(Debug)]
pub enum EndpointRefusal<E> {
    Packet(PacketError),
    Payload(E),
}

/// The status of a packet that ends its route at an untagged port, given
/// the result of its payload's own check: a packet with a session id is
/// refused first, then the payload check decides.
pub fn endpoint_status<T, E>(pkt: &Packet<T>, payload_status: Result<(), E>) -> (r: Result<
    (),
    EndpointRefusal<E>,
>)
    ensures
        pkt.spec_sid() matches Some(sid) ==> r == Err::<(), EndpointRefusal<E>>(
            EndpointRefusal::Packet(PacketError::UntaggedSid(sid)),
        ),
        pkt.spec_sid() is None ==> r == match payload_status {
            Ok(()) => Ok::<(), EndpointRefusal<E>>(()),
            Err(e) => Err(EndpointRefusal::Payload(e)),
        },
{
    match pkt.untagged_check() {
        Err(e) => Err(EndpointRefusal::Packet(e)),
        Ok(()) => match payload_status {
            Ok(()) => Ok(()),
            Err(e) => Err(EndpointRefusal::Payload(e)),
        },
    }
}

/// `n` is `s` with `item` inserted after every entry whose packet uid is not
/// greater than the one of its packet, and before the others.
pub open spec fn uid_ordered_insert<T, S>(s: Seq<(Packet<T>, S)>, item: (Packet<T>, S), n: Seq<(Packet<T>, S)>) -> bool {
    exists|k: int|
        0 <= k <= s.len() && n == s.insert(k, item) && (forall|j: int|
            0 <= j < k ==> #[trigger] s[j].0.spec_uid() <= item.0.spec_uid()) && (forall|j: int|
            k <= j < s.len() ==> #[trigger] s[j].0.spec_uid() > item.0.spec_uid())
}

/// Entries are in nondecreasing packet uid order.
pub open spec fn sorted_by_uid<T, S>(s: Seq<(Packet<T>, S)>) -> bool {
    forall|i: int, j: int| 0 <= i < j < s.len() ==> s[i].0.spec_uid() <= s[j].0.spec_uid()
}

/// Insert a received packet, with its status, in a burst of responses kept
/// in uid order; responses of equal uid stay in arrival order.
pub fn insert_by_uid<T, S>(resp: &mut Vec<(Packet<T>, S)>, pkt: Packet<T>, status: S)
    requires
        sorted_by_uid(old(resp)@),
    ensures
        sorted_by_uid(final(resp)@),
        uid_ordered_insert(old(resp)@, (pkt, status), final(resp)@),
{
    let u = pkt.uid();
    let mut i: usize = 0;
    while i < resp.len() && !(u < resp[i].0.uid())
        invariant
            0 <= i <= resp.len(),
            forall|j: int| 0 <= j < i ==> #[trigger] resp@[j].0.spec_uid() <= u,
        decreases resp.len() - i,
    {
        i = i + 1;
    }
    let ghost s = resp@;
    let ghost item = (pkt, status);
    proof {
        assert forall|j: int| i <= j < s.len() implies #[trigger] s[j].0.spec_uid() > u by {
            assert(s[i as int].0.spec_uid() <= s[j].0.spec_uid());
        }
    }
    resp.insert(i, (pkt, status));
    proof {
        let n = resp@;
        assert(n == s.insert(i as int, item));
        assert forall|a: int, b: int| 0 <= a < b < n.len() implies n[a].0.spec_uid()
            <= n[b].0.spec_uid() by {
            if a < i && b > i {
                assert(n[b] == s[b - 1]);
                assert(n[a] == s[a]);
            } else if a < i && b == i {
                assert(n[a] == s[a]);
            } else if a == i {
                assert(n[b] == s[b - 1]);
            } else if b < i {
                assert(n[a] == s[a]);
                assert(n[b] == s[b]);
            } else {
                assert(n[a] == s[a - 1]);
                assert(n[b] == s[b - 1]);
            }
        }
        assert(uid_ordered_insert(s, item, n));
    }
}

} // verus!
