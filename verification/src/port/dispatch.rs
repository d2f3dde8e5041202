//! Session queues: received packets are kept in uid order, and dequeued in
//! bursts from the front.

use vstd::prelude::*;
use crate::port::packet::Packet;
use crate::naming::{decimal, forge_indexed_name};
use crate::port::packet::PacketError;
use vstd::string::StringExecFns;

verus! {

/// Packets are in nondecreasing uid order.
pub open spec fn uids_sorted<T>(s: Seq<Packet<T>>) -> bool {
    forall|i: int, j: int| 0 <= i < j < s.len() ==> s[i].spec_uid() <= s[j].spec_uid()
}

/// `n` is `s` with `p` inserted after every packet whose uid is not greater
/// than the one of `p`, and before the others.
pub open spec fn ordered_insert<T>(s: Seq<Packet<T>>, p: Packet<T>, n: Seq<Packet<T>>) -> bool {
    exists|k: int|
        0 <= k <= s.len() && n == s.insert(k, p) && (forall|j: int|
            0 <= j < k ==> #[trigger] s[j].spec_uid() <= p.spec_uid()) && (forall|j: int|
            k <= j < s.len() ==> #[trigger] s[j].spec_uid() > p.spec_uid())
}

/// A bounded queue of received packets, ordered by uid.
#[derive(Debug)]
pub struct Queue<T> {
    depth: usize,
    enq_evt_name: String,
    deq_evt_name: String,
    ll: Vec<Packet<T>>,
}

impl<T> Queue<T> {
    /// The packets held, in uid order.
    pub closed spec fn view(&self) -> Seq<Packet<T>> {
        self.ll@
    }

    /// The maximum number of packets held.
    pub closed spec fn spec_depth(&self) -> nat {
        self.depth as nat
    }

    /// Name of the event notified on enqueue.
    pub closed spec fn spec_enq_evt_name(&self) -> Seq<char> {
        self.enq_evt_name@
    }

    /// Name of the event notified on dequeue.
    pub closed spec fn spec_deq_evt_name(&self) -> Seq<char> {
        self.deq_evt_name@
    }

    /// Packets are held in uid order.
    pub open spec fn wf(&self) -> bool {
        uids_sorted(self@)
    }

    /// An empty queue of `depth` packets, number `qid` of the dispatcher named
    /// `evt_bname`.
    pub fn new(depth: usize, qid: usize, evt_bname: &str) -> (r: Self)
        ensures
            r.wf(),
            r@ == Seq::<Packet<T>>::empty(),
            r.spec_depth() == depth,
            r.spec_enq_evt_name() == evt_bname@ + seq!['.'] + "enqueue"@ + seq!['_'] + decimal(
                qid as nat,
            ),
            r.spec_deq_evt_name() == evt_bname@ + seq!['.'] + "dequeue"@ + seq!['_'] + decimal(
                qid as nat,
            ),
    {
        let enq_evt_name = forge_indexed_name(evt_bname, "enqueue", qid);
        let deq_evt_name = forge_indexed_name(evt_bname, "dequeue", qid);
        Self { depth, enq_evt_name, deq_evt_name, ll: Vec::new() }
    }

    /// Name of the event notified on enqueue.
    pub fn enq_evt_name(&self) -> (r: &str)
        ensures
            r@ == self.spec_enq_evt_name(),
    {
        self.enq_evt_name.as_str()
    }

    /// Name of the event notified on dequeue.
    pub fn deq_evt_name(&self) -> (r: &str)
        ensures
            r@ == self.spec_deq_evt_name(),
    {
        self.deq_evt_name.as_str()
    }

    /// Number of packets held.
    pub fn len(&self) -> (r: usize)
        ensures
            r == self@.len(),
    {
        self.ll.len()
    }

    /// Insert a packet at its place in uid order, after the packets of equal
    /// uid. A full queue hands the packet back unchanged.
    pub fn enqueue(&mut self, pkt: Packet<T>) -> (r: Result<(), Packet<T>>)
        requires
            old(self).wf(),
        ensures
            final(self).wf(),
            final(self).spec_depth() == old(self).spec_depth(),
            final(self).spec_enq_evt_name() == old(self).spec_enq_evt_name(),
            final(self).spec_deq_evt_name() == old(self).spec_deq_evt_name(),
            old(self)@.len() >= old(self).spec_depth() ==> r == Err::<(), Packet<T>>(pkt) && final(self)@ == old(self)@,
            old(self)@.len() < old(self).spec_depth() ==> r is Ok && ordered_insert(
                old(self)@,
                pkt,
                final(self)@,
            ),
    {
        if self.ll.len() >= self.depth {
            return Err(pkt);
        }
        let u = pkt.uid();
        let mut i: usize = 0;
        while i < self.ll.len() && !(u < self.ll[i].uid())
            invariant
                0 <= i <= self.ll.len(),
                forall|j: int| 0 <= j < i ==> #[trigger] self.ll@[j].spec_uid() <= u,
            decreases self.ll.len() - i,
        {
            i = i + 1;
        }
        let ghost s = self.ll@;
        proof {
            assert forall|j: int| i <= j < s.len() implies #[trigger] s[j].spec_uid() > u by {
                assert(s[i as int].spec_uid() <= s[j].spec_uid());
            }
        }
        self.ll.insert(i, pkt);
        proof {
            let n = self.ll@;
            assert(n == s.insert(i as int, pkt));
            assert forall|a: int, b: int| 0 <= a < b < n.len() implies n[a].spec_uid()
                <= n[b].spec_uid() by {
                if a < i && b > i {
                    assert(n[b] == s[b - 1]);
                    assert(n[a] == s[a]);
                } else if a < i && b == i {
                    assert(n[a] == s[a]);
                } else if a == i {
                    assert(n[b] == s[b - 1]);
                } else if b < i {
                    assert(n[a] == s[a]);
                    assert(n[b] == s[b]);
                } else {
                    assert(n[a] == s[a - 1]);
                    assert(n[b] == s[b - 1]);
                }
            }
            assert(ordered_insert(s, pkt, n));
        }
        Ok(())
    }

    /// Remove the first `len` packets, when the queue holds that many.
    pub fn dequeue(&mut self, len: usize) -> (r: Option<Vec<Packet<T>>>)
        requires
            old(self).wf(),
        ensures
            final(self).wf(),
            final(self).spec_depth() == old(self).spec_depth(),
            final(self).spec_enq_evt_name() == old(self).spec_enq_evt_name(),
            final(self).spec_deq_evt_name() == old(self).spec_deq_evt_name(),
            old(self)@.len() < len ==> r is None && final(self)@ == old(self)@,
            old(self)@.len() >= len ==> (r matches Some(head) && head@ == old(self)@.take(len as int)
                && final(self)@ == old(self)@.skip(len as int)),
    {
        if self.ll.len() < len {
            return None;
        }
        let tail = self.ll.split_off(len);
        let mut head = tail;
        std::mem::swap(&mut head, &mut self.ll);
        proof {
            assert(head@ =~= old(self)@.take(len as int));
            assert(self.ll@ =~= old(self)@.skip(len as int));
        }
        Some(head)
    }

    /// Drop every packet.
    pub fn flush(&mut self)
        ensures
            final(self).wf(),
            final(self)@ == Seq::<Packet<T>>::empty(),
            final(self).spec_depth() == old(self).spec_depth(),
            final(self).spec_enq_evt_name() == old(self).spec_enq_evt_name(),
            final(self).spec_deq_evt_name() == old(self).spec_deq_evt_name(),
    {
        self.ll.clear();
    }
}

/// Splits a stream of received packets over session queues: a packet goes
/// to the queue of its session id (queue 0 without one).
#[derive(Debug)]
pub struct Dispatch<T> {
    name: String,
    is_spawned: bool,
    queues: Vec<Queue<T>>,
}

impl<T> Dispatch<T> {
    /// Number of sessions.
    pub closed spec fn width(&self) -> nat {
        self.queues@.len()
    }

    /// The packets of session `sid`, in uid order.
    pub closed spec fn session(&self, sid: int) -> Seq<Packet<T>> {
        self.queues@[sid]@
    }

    /// The depth of session `sid`.
    pub closed spec fn session_depth(&self, sid: int) -> nat {
        self.queues@[sid].spec_depth()
    }

    /// The event names of session `sid` (enqueue, dequeue).
    pub closed spec fn session_events(&self, sid: int) -> (Seq<char>, Seq<char>) {
        (self.queues@[sid].spec_enq_evt_name(), self.queues@[sid].spec_deq_evt_name())
    }

    /// Whether the polling process was started.
    pub closed spec fn spawned(&self) -> bool {
        self.is_spawned
    }

    pub closed spec fn spec_name(&self) -> Seq<char> {
        self.name@
    }

    pub closed spec fn wf(&self) -> bool {
        forall|i: int| 0 <= i < self.queues@.len() ==> (#[trigger] self.queues@[i]).wf()
    }

    /// A dispatcher named `name` in the module at `path`, with one session
    /// queue per entry of `depth`.
    pub fn from_depth(name: &str, path: &str, depth: &Vec<usize>) -> (r: Self)
        ensures
            r.wf(),
            !r.spawned(),
            r.spec_name() == name@,
            r.width() == depth@.len(),
            forall|i: int|
                0 <= i < depth@.len() ==> #[trigger] r.session(i) == Seq::<Packet<T>>::empty()
                    && r.session_depth(i) == depth@[i] && r.session_events(i) == (
                    path@ + seq!['.'] + name@ + seq!['.'] + "enqueue"@ + seq!['_'] + decimal(
                        i as nat,
                    ),
                    path@ + seq!['.'] + name@ + seq!['.'] + "dequeue"@ + seq!['_'] + decimal(
                        i as nat,
                    ),
                ),
    {
        let dot = String::from_str(".");
        proof {
            reveal_strlit(".");
        }
        let evt_bname = String::from_str(path).concat(dot.as_str()).concat(name);
        let mut queues: Vec<Queue<T>> = Vec::new();
        let mut i: usize = 0;
        while i < depth.len()
            invariant
                0 <= i <= depth@.len(),
                evt_bname@ == path@ + seq!['.'] + name@,
                queues@.len() == i,
                forall|k: int|
                    0 <= k < i ==> (#[trigger] queues@[k]).wf() && queues@[k]@ == Seq::<
                        Packet<T>,
                    >::empty() && queues@[k].spec_depth() == depth@[k]
                        && queues@[k].spec_enq_evt_name() == evt_bname@ + seq!['.'] + "enqueue"@
                        + seq!['_'] + decimal(k as nat) && queues@[k].spec_deq_evt_name()
                        == evt_bname@ + seq!['.'] + "dequeue"@ + seq!['_'] + decimal(k as nat),
            decreases depth.len() - i,
        {
            queues.push(Queue::new(depth[i], i, evt_bname.as_str()));
            i = i + 1;
        }
        Dispatch { name: String::from_str(name), is_spawned: false, queues }
    }

    /// A dispatcher with `sid` sessions of `pkt_inflight` packets each.
    pub fn new(name: &str, path: &str, pkt_inflight: usize, sid: usize) -> (r: Self)
        ensures
            r.wf(),
            !r.spawned(),
            r.spec_name() == name@,
            r.width() == sid,
            forall|i: int|
                0 <= i < sid ==> #[trigger] r.session(i) == Seq::<Packet<T>>::empty()
                    && r.session_depth(i) == pkt_inflight,
    {
        let mut depth: Vec<usize> = Vec::new();
        let mut i: usize = 0;
        while i < sid
            invariant
                0 <= i <= sid,
                depth@.len() == i,
                forall|k: int| 0 <= k < i ==> depth@[k] == pkt_inflight,
            decreases sid - i,
        {
            depth.push(pkt_inflight);
            i = i + 1;
        }
        Self::from_depth(name, path, &depth)
    }

    /// Mark the polling process as started; returns whether it is to be
    /// started now (only the first call does).
    pub fn init(&mut self) -> (start: bool)
        ensures
            start == !old(self).spawned(),
            final(self).spawned(),
            final(self).width() == old(self).width(),
            forall|i: int| 0 <= i < old(self).width() ==> #[trigger] final(self).session(i) == old(self).session(i),
            final(self).wf() == old(self).wf(),
    {
        if !self.is_spawned {
            self.is_spawned = true;
            true
        } else {
            false
        }
    }

    /// The session of a received packet: its session id, or 0 without one.
    pub fn session_of(pkt: &Packet<T>) -> (r: usize)
        ensures
            r == match pkt.spec_sid() {
                Some(s) => s,
                None => 0,
            },
    {
        match pkt.sid() {
            Some(s) => *s,
            None => 0,
        }
    }

    /// File a received packet in the queue of its session. A full queue hands
    /// the packet back (the poller waits for a dequeue and retries).
    pub fn route(&mut self, pkt: Packet<T>) -> (r: Result<(), Packet<T>>)
        requires
            old(self).wf(),
            (match pkt.spec_sid() {
                Some(s) => s,
                None => 0,
            }) < old(self).width(),
        ensures
            final(self).wf(),
            final(self).width() == old(self).width(),
            final(self).spawned() == old(self).spawned(),
            ({
                let sid = match pkt.spec_sid() {
                    Some(s) => s as int,
                    None => 0,
                };
                &&& old(self).session(sid).len() >= old(self).session_depth(sid) ==> r == Err::<
                    (),
                    Packet<T>,
                >(pkt) && final(self).session(sid) == old(self).session(sid)
                &&& old(self).session(sid).len() < old(self).session_depth(sid) ==> r is Ok
                    && ordered_insert(old(self).session(sid), pkt, final(self).session(sid))
                &&& forall|i: int|
                    0 <= i < old(self).width() && i != sid ==> #[trigger] final(self).session(i)
                        == old(self).session(i)
                &&& forall|i: int|
                    0 <= i < old(self).width() ==> #[trigger] final(self).session_depth(i)
                        == old(self).session_depth(i)
            }),
    {
        let sid = Self::session_of(&pkt);
        let ghost old_q = self.queues@;
        let r = self.queues[sid].enqueue(pkt);
        proof {
            assert forall|i: int| 0 <= i < self.queues@.len() implies (#[trigger] self.queues@[i]).wf() by {
                if i != sid {
                    assert(self.queues@[i] == old_q[i]);
                }
            }
        }
        r
    }

    /// Take `nb_pkt` packets of session `sid` from the front, when the queue
    /// holds that many (else the caller waits for an enqueue).
    pub fn wait_pkt_burst(&mut self, sid: usize, nb_pkt: usize) -> (r: Option<Vec<Packet<T>>>)
        requires
            old(self).wf(),
            old(self).spawned(),
            sid < old(self).width(),
        ensures
            final(self).wf(),
            final(self).width() == old(self).width(),
            final(self).spawned() == old(self).spawned(),
            old(self).session(sid as int).len() < nb_pkt ==> r is None && final(self).session(
                sid as int,
            ) == old(self).session(sid as int),
            old(self).session(sid as int).len() >= nb_pkt ==> (r matches Some(head) && head@ == old(
                self,
            ).session(sid as int).take(nb_pkt as int) && final(self).session(sid as int) == old(
                self,
            ).session(sid as int).skip(nb_pkt as int)),
            forall|i: int|
                0 <= i < old(self).width() && i != sid ==> #[trigger] final(self).session(i) == old(
                    self,
                ).session(i),
    {
        let ghost old_q = self.queues@;
        let r = self.queues[sid].dequeue(nb_pkt);
        proof {
            assert forall|i: int| 0 <= i < self.queues@.len() implies (#[trigger] self.queues@[i]).wf() by {
                if i != sid {
                    assert(self.queues@[i] == old_q[i]);
                }
            }
        }
        r
    }

    /// Drop every queued packet.
    pub fn flush_all(&mut self)
        ensures
            final(self).wf(),
            final(self).width() == old(self).width(),
            final(self).spawned() == old(self).spawned(),
            forall|i: int| 0 <= i < old(self).width() ==> #[trigger] final(self).session(i) == Seq::<
                Packet<T>,
            >::empty(),
    {
        let n = self.queues.len();
        let mut i: usize = 0;
        while i < n
            invariant
                0 <= i <= n,
                n == self.queues@.len(),
                forall|k: int| 0 <= k < i ==> (#[trigger] self.queues@[k])@ == Seq::<Packet<T>>::empty(),
                forall|k: int| 0 <= k < i ==> (#[trigger] self.queues@[k]).wf(),
                self.is_spawned == old(self).is_spawned,
            decreases n - i,
        {
            self.queues[i].flush();
            i = i + 1;
        }
    }

    /// The event names of session `sid`: (enqueue, dequeue).
    pub fn events(&self, sid: usize) -> (r: (&str, &str))
        requires
            sid < self.width(),
        ensures
            (r.0@, r.1@) == self.session_events(sid as int),
    {
        (self.queues[sid].enq_evt_name(), self.queues[sid].deq_evt_name())
    }

    /// Number of sessions.
    pub fn session_count(&self) -> (r: usize)
        ensures
            r == self.width(),
    {
        self.queues.len()
    }

    /// A packet that ends its route here must carry a session id.
    pub fn endpoint_check(pkt: &Packet<T>) -> (r: Result<(), PacketError>)
        ensures
            pkt.spec_sid() is None <==> r == Err::<(), PacketError>(PacketError::TaggedNoSid),
            pkt.spec_sid() is Some <==> r is Ok,
    {
        if pkt.sid().is_none() {
            Err(PacketError::TaggedNoSid)
        } else {
            Ok(())
        }
    }
}

/// A packet enqueued in an empty session queue is what a dequeue of one
/// packet gives back, and the queue is empty again.
pub proof fn law_dequeue_after_enqueue<T>(pkt: Packet<T>, filled: Seq<Packet<T>>)
    requires
        ordered_insert(Seq::<Packet<T>>::empty(), pkt, filled),
    ensures
        filled.take(1) == seq![pkt],
        filled.skip(1) == Seq::<Packet<T>>::empty(),
{
    let k = choose|k: int|
        0 <= k <= Seq::<Packet<T>>::empty().len() && filled == Seq::<Packet<T>>::empty().insert(k, pkt)
            && (forall|j: int| 0 <= j < k ==> #[trigger] Seq::<Packet<T>>::empty()[j].spec_uid() <= pkt.spec_uid())
            && (forall|j: int|
            k <= j < Seq::<Packet<T>>::empty().len() ==> #[trigger] Seq::<Packet<T>>::empty()[j].spec_uid()
                > pkt.spec_uid());
    assert(k == 0);
    assert(filled =~= seq![pkt]);
    assert(filled.take(1) =~= seq![pkt]);
    assert(filled.skip(1) =~= Seq::<Packet<T>>::empty());
}

} // verus!
