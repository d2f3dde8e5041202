use ra2m_sim::event::EventKeeper;
use ra2m_sim::module::UidGen;
use ra2m_sim::containers::ContainerError;
use ra2m_sim::naming::{decimal_text, forge_indexed_name};
use ra2m_sim::port::dispatch::Dispatch;
use ra2m_sim::port::packet::{Packet, PacketError, PacketOptions};
use ra2m_sim::port::PortVec;
use ra2m_sim::scheduler::{ExitKind, Order, SchedulerAPI};

fn pkt(uid: usize, sid: Option<usize>) -> Packet<u32> {
    Packet::with_uid(uid as u32, PacketOptions { timed: true, sid, delay: 0 }, uid, 0)
}

#[test]
fn decimal_names() {
    assert_eq!("0", decimal_text(0));
    assert_eq!("9", decimal_text(9));
    assert_eq!("10", decimal_text(10));
    assert_eq!(usize::MAX.to_string(), decimal_text(usize::MAX));
    assert_eq!("root.disp.enqueue_12", forge_indexed_name("root.disp", "enqueue", 12));
}

#[test]
fn dispatch_routes_by_session() {
    let mut d: Dispatch<u32> = Dispatch::from_depth("disp", "root::m", &vec![2, 1]);
    assert_eq!(2, d.session_count());
    assert_eq!(("root::m.disp.enqueue_1", "root::m.disp.dequeue_1"), d.events(1));
    assert!(d.init());
    assert!(!d.init());

    assert!(d.route(pkt(5, None)).is_ok());
    assert!(d.route(pkt(3, Some(0))).is_ok());
    // Session 0 is full.
    let back = d.route(pkt(4, None)).unwrap_err();
    assert_eq!(4, back.uid());
    assert!(d.route(pkt(7, Some(1))).is_ok());

    assert!(d.wait_pkt_burst(0, 3).is_none());
    let burst = d.wait_pkt_burst(0, 2).unwrap();
    assert_eq!(vec![3, 5], burst.iter().map(|p| p.uid()).collect::<Vec<_>>());
    assert_eq!(Err(PacketError::TaggedNoSid), Dispatch::endpoint_check(&burst[1]));
    assert_eq!(Ok(()), Dispatch::endpoint_check(&burst[0]));

    d.flush_all();
    assert!(d.wait_pkt_burst(1, 1).is_none());

    let n: Dispatch<u32> = Dispatch::new("d", "p", 4, 3);
    assert_eq!(3, n.session_count());
}

#[test]
fn port_vec_names_and_capacity() {
    let mut v: PortVec<&str> = PortVec::new(2, "tx", Some(4), None);
    assert_eq!("tx_0", v.next_port_name());
    assert_eq!(Ok(0), v.next_port("a"));
    assert_eq!("tx_1", v.next_port_name());
    assert_eq!(Ok(1), v.next_port("b"));
    assert!(matches!(v.next_port("c"), Err(ContainerError::SizeExceeded(2))));
    assert_eq!(2, v.len());
    assert_eq!(&["a", "b"][..], v.as_slice());
    assert_eq!((Some(4), None), v.settings());
}

#[test]
fn process_accounting_wakes_the_scheduler() {
    let mut api: SchedulerAPI<&str> = SchedulerAPI::new(4);
    api.register_new_prc();
    api.register_new_prc();
    assert_eq!(2, api.hw_prc());
    assert!(!api.delta_cycle_ended());
    // A notification does not halt its process.
    assert!(!api.push_order(Order::NotifyAt(5, 1)));
    assert_eq!(2, api.alive_prc());
    assert!(!api.push_order(Order::WaitUntil(3, "a")));
    // The last alive process halting wakes the scheduler.
    assert!(api.push_order(Order::WaitOn(1, "b")));
    assert!(api.delta_cycle_ended());
    assert!(matches!(api.pop_order(), Some(Order::NotifyAt(5, 1))));
    assert!(matches!(api.pop_order(), Some(Order::WaitUntil(3, "a"))));
    api.wake_prc(2);
    assert_eq!(2, api.alive_prc());
    assert!(!api.lock_prc());
    assert!(api.lock_prc());
    api.unlock_evt();
    assert!(api.has_unlock_evt());
    assert!(api.unlock_pending());
    // Back from a lock: the scheduler is woken only from a count below zero.
    assert!(!api.unlock_prc());
    assert!(!api.unlock_pending());
    api.clear_unlock();
    assert!(!api.has_unlock_evt());
    // The one alive process ends: the scheduler is woken.
    assert!(api.unregister_prc());
    assert!(!api.unregister_prc());
    assert_eq!(0, api.hw_prc());
    assert_eq!(-1, api.alive_prc());
    assert_eq!(4, api.reset(4));
    assert!(api.pop_order().is_none());
    assert!(!api.force_early_exit());
    api.set_force_early_exit(true);
    assert!(api.force_early_exit());
    assert!(!api.push_order(Order::Exit(ExitKind::PrcExit)));
}

#[test]
fn unlock_with_negative_alive_count_wakes() {
    let mut api: SchedulerAPI<()> = SchedulerAPI::new(1);
    api.register_new_prc();
    assert!(api.lock_prc());
    assert_eq!(0, api.alive_prc());
    assert!(!api.lock_prc());
    assert_eq!(-1, api.alive_prc());
    assert!(api.unlock_prc());
}

#[test]
fn events_are_numbered_once_and_flagged_per_tick() {
    let mut k = EventKeeper::new();
    assert_eq!(0, k.event_id("enq"));
    assert_eq!(1, k.event_id("deq"));
    assert_eq!(0, k.event_id("enq"));
    assert_eq!(2, k.len());
    assert_eq!(Some("deq".to_owned()), k.event_name(1));
    assert_eq!(None, k.event_name(2));
    assert!(!k.is_triggered(1));
    k.trigger(1);
    k.trigger(7);
    assert!(k.is_triggered(1));
    assert!(!k.is_triggered(0));
    k.clear_triggered();
    assert!(!k.is_triggered(1));
    assert_eq!(2, k.len());
}

#[test]
fn module_ids_are_issued_once() {
    let mut uids = UidGen::new();
    assert_eq!(0, uids.issue());
    assert_eq!(1, uids.issue());
    assert_eq!(2, uids.count());
}
