use ra2m_sim::port::dispatch::Queue;
use ra2m_sim::port::packet::{endpoint_status, insert_by_uid, EndpointRefusal, Packet, PacketError, PacketOptions};
use ra2m_sim::port::{check_connect, peer_endpoint, resolve_inflight, EndpointError, HandleKind, Peer};
use ra2m_sim::types::clock::{Cycles, CyclesType};
use ra2m_sim::types::span::Span;

fn pkt(uid: usize) -> Packet<usize> {
    Packet::with_uid(uid * 10, PacketOptions::default(), uid, 0)
}

#[test]
fn packet_delay_counts_down_from_ready_tick() {
    let options = PacketOptions { timed: true, sid: Some(2), delay: 5 };
    let mut p = Packet::with_uid("data", options, 42, 100);
    assert_eq!(p.uid(), 42);
    assert_eq!(*p.sid(), Some(2));
    assert!(p.timed());
    assert_eq!(p.delay(100), 5);
    p.append_delay(10);
    assert_eq!(p.delay(103), 12);
    assert_eq!(p.delay(200), 0);
    assert_eq!(*p.payload(), "data");
    p.set_payload("other");
    assert_eq!(p.unwrap_payload(), "other");
}

#[test]
fn queue_keeps_uid_order() {
    let mut q: Queue<usize> = Queue::new(3, 1, "root.disp");
    assert_eq!(q.enq_evt_name(), "root.disp.enqueue_1");
    assert_eq!(q.deq_evt_name(), "root.disp.dequeue_1");
    assert!(q.enqueue(pkt(5)).is_ok());
    assert!(q.enqueue(pkt(2)).is_ok());
    assert!(q.enqueue(pkt(9)).is_ok());
    // full queue hands the packet back
    let back = q.enqueue(pkt(1)).unwrap_err();
    assert_eq!(back.uid(), 1);
    assert!(q.dequeue(4).is_none());
    let head = q.dequeue(2).unwrap();
    assert_eq!(head.iter().map(|p| p.uid()).collect::<Vec<_>>(), vec![2, 5]);
    assert_eq!(q.len(), 1);
    q.flush();
    assert_eq!(q.len(), 0);
}

#[test]
fn inflight_is_set_by_exactly_one_endpoint() {
    assert_eq!(resolve_inflight(Some(4), None), Some(4));
    assert_eq!(resolve_inflight(None, Some(2)), Some(2));
    assert_eq!(resolve_inflight(Some(4), Some(2)), None);
    assert_eq!(resolve_inflight(None, None), None);
}

#[test]
fn spans_and_cycles() {
    assert_eq!(Span { start: 3, end: 10 }.duration(), 7);
    let c = Cycles(6);
    assert_eq!(c.mul(2).count(), 12);
    assert_eq!(c.div(4).count(), 1);
    assert_eq!(c.add(Cycles(1)), Cycles(7));
    assert_eq!(c.sub(Cycles(1)), Cycles(5));
}

#[test]
fn endpoint_checks_on_uid_and_session() {
    let p = Packet::with_uid(1u8, PacketOptions { timed: true, sid: Some(2), delay: 0 }, 9, 0);
    assert_eq!(Ok(()), p.expect_uid(None));
    assert_eq!(Ok(()), p.expect_uid(Some(9)));
    assert_eq!(Err(PacketError::UidMismatch(9, 4)), p.expect_uid(Some(4)));
    assert_eq!(Err(PacketError::UntaggedSid(2)), p.untagged_check());
    let q = Packet::with_uid(1u8, PacketOptions::default(), 3, 0);
    assert_eq!(Ok(()), q.untagged_check());
}

#[test]
fn bursts_are_reordered_by_uid() {
    let mut resp: Vec<(Packet<u8>, bool)> = Vec::new();
    for (uid, tag) in [(5, true), (2, false), (9, true), (5, false), (1, true)] {
        insert_by_uid(&mut resp, Packet::with_uid(0u8, PacketOptions::default(), uid, 0), tag);
    }
    let order: Vec<(usize, bool)> = resp.iter().map(|(p, s)| (p.uid(), *s)).collect();
    assert_eq!(vec![(1, true), (2, false), (5, true), (5, false), (9, true)], order);
}

#[test]
fn endpoints_take_only_their_own_handles() {
    assert!(check_connect("m.tx".to_owned(), false, true, true, false).is_ok());
    assert!(check_connect("m.rx".to_owned(), false, false, false, true).is_ok());
    match check_connect("m.tx".to_owned(), false, true, false, true) {
        Err(EndpointError::Handle(ep)) => assert_eq!(ep, "m.tx"),
        other => panic!("unexpected {other:?}"),
    }
    match check_connect("m.rx".to_owned(), false, false, true, true) {
        Err(EndpointError::Handle(ep)) => assert_eq!(ep, "m.rx"),
        other => panic!("unexpected {other:?}"),
    }
    match check_connect("m.rx".to_owned(), true, false, false, true) {
        Err(EndpointError::AlrdyBind(ep, binded)) => {
            assert_eq!(ep, "m.rx");
            assert!(binded);
        }
        other => panic!("unexpected {other:?}"),
    }
}

#[test]
fn wrapped_packets_get_fresh_increasing_ids() {
    let mut uids = ra2m_sim::module::UidGen::new();
    let a = Packet::wrap_payload('a', PacketOptions::default(), &mut uids, 0);
    let b = Packet::wrap_payload('b', PacketOptions { timed: false, sid: Some(1), delay: 4 }, &mut uids, 3);
    assert_eq!((0, 1), (a.uid(), b.uid()));
    assert!(!b.timed());
    assert_eq!(Some(1), *b.sid());
    assert_eq!('b', *b.payload());
    assert_eq!(7, b.ready_at());
}

#[test]
fn integers_count_cycles() {
    assert_eq!(Cycles(7), 7u8.cycles());
    assert_eq!(Cycles(70_000), 70_000u64.cycles());
    assert_eq!(Cycles(12), 12i32.cycles());
    assert_eq!(Cycles(3), 3isize.cycles());
    assert_eq!(Cycles(9), 9u128.cycles());
}

#[test]
fn ports_bind_to_the_opposite_endpoint() {
    assert_eq!(Some(Peer::Rx), peer_endpoint(true, HandleKind::RxOnly));
    assert_eq!(Some(Peer::Rx), peer_endpoint(true, HandleKind::TxRx));
    assert_eq!(None, peer_endpoint(true, HandleKind::TxOnly));
    assert_eq!(Some(Peer::Tx), peer_endpoint(false, HandleKind::TxOnly));
    assert_eq!(Some(Peer::Tx), peer_endpoint(false, HandleKind::TxRx));
    assert_eq!(None, peer_endpoint(false, HandleKind::RxOnly));
}

#[test]
fn endpoint_status_checks_the_session_first() {
    let tagged = Packet::with_uid(0u8, PacketOptions { timed: true, sid: Some(4), delay: 0 }, 1, 0);
    match endpoint_status(&tagged, Err::<(), &str>("bad payload")) {
        Err(EndpointRefusal::Packet(PacketError::UntaggedSid(4))) => {}
        other => panic!("unexpected {other:?}"),
    }
    let plain = Packet::with_uid(0u8, PacketOptions::default(), 2, 0);
    match endpoint_status(&plain, Err::<(), &str>("bad payload")) {
        Err(EndpointRefusal::Payload("bad payload")) => {}
        other => panic!("unexpected {other:?}"),
    }
    assert!(endpoint_status(&plain, Ok::<(), &str>(())).is_ok());
}
