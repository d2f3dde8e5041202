use ra2m_sim::delay::{Delay, DelayPoll};
use ra2m_sim::module::{Area, Properties, PropertiesOverride, UidGen};
use ra2m_sim::scheduler::{ExitKind, Order, Scheduler, SchedulerAPI, Task, Wake};

fn wakes(actions: Vec<Wake<&'static str>>) -> Vec<String> {
    actions
        .into_iter()
        .map(|a| match a {
            Wake::Waker(w) => w.to_string(),
            Wake::Event(e) => format!("evt{e}"),
        })
        .collect()
}

#[test]
fn orders_are_never_due_in_the_past() {
    let mut sched: Scheduler<&str> = Scheduler::new(4);
    assert_eq!(sched.accept_order(Order::WaitUntil(3, "a"), 10), None);
    assert_eq!(sched.accept_order(Order::WaitUntil(15, "b"), 10), None);
    assert_eq!(sched.next_tick(), Some(11));
    assert_eq!(sched.next_step(100, false), Ok(11));
}

#[test]
fn run_stops_without_tasks_past_duration_or_on_request() {
    let mut sched: Scheduler<&str> = Scheduler::new(4);
    assert_eq!(sched.next_step(100, false), Err(ExitKind::NoHwPrc));
    sched.accept_order(Order::WaitUntil(50, "a"), 0);
    assert_eq!(sched.next_step(49, false), Err(ExitKind::EndOfTick));
    assert_eq!(sched.next_step(50, true), Err(ExitKind::EndOfTick));
    assert_eq!(sched.next_step(50, false), Ok(50));
    assert_eq!(sched.accept_order(Order::Exit(ExitKind::PrcExit), 0), Some(ExitKind::PrcExit));
}

#[test]
fn due_tasks_are_released_in_filing_order() {
    let mut sched: Scheduler<&str> = Scheduler::new(4);
    sched.accept_order(Order::WaitUntil(40, "p1"), 0);
    sched.accept_order(Order::WaitUntil(51, "p2"), 0);
    sched.accept_order(Order::WaitUntil(40, "p3"), 0);
    sched.accept_order(Order::WaitOn(7, "w1"), 0);
    sched.accept_order(Order::WaitOn(8, "w2"), 0);
    sched.accept_order(Order::WaitOn(7, "w3"), 0);
    sched.accept_order(Order::NotifyAt(51, 7), 0);
    let t = sched.next_step(1000, false).unwrap();
    assert_eq!(t, 40);
    assert_eq!(wakes(sched.pop_due(t)), vec!["p1", "p3"]);
    let t = sched.next_step(1000, false).unwrap();
    assert_eq!(t, 51);
    assert_eq!(wakes(sched.pop_due(t)), vec!["p2", "evt7", "w1", "w3"]);
    assert_eq!(sched.next_step(1000, false), Err(ExitKind::NoHwPrc));
    // w2 still waits on event 8
    sched.accept_order(Order::NotifyAt(60, 8), 51);
    assert_eq!(wakes(sched.pop_due(60)), vec!["evt8", "w2"]);
}

#[test]
fn task_ticks_and_halting_orders() {
    assert_eq!(Task::<()>::Notify(9, 1).tick(), 9);
    assert_eq!(Task::Wakeup(4, ()).tick(), 4);
    assert!(Order::WaitUntil(1, ()).halts());
    assert!(Order::WaitOn(1, ()).halts());
    assert!(!Order::<()>::NotifyAt(1, 2).halts());
    assert!(!Order::<()>::Exit(ExitKind::NoHwPrc).halts());
}

#[test]
fn delay_waits_then_is_ready() {
    let mut d = Delay::wait_for(10, 40);
    assert_eq!(d.poll(10), DelayPoll::Pending(Some(50)));
    // the wait order is sent once
    assert_eq!(d.poll(10), DelayPoll::Pending(None));
    assert_eq!(d.poll(50), DelayPoll::Ready);
    let mut u = Delay::wait_until(5, 3);
    assert_eq!(u.poll(5), DelayPoll::Ready);
}

/// A process that waits `delay` ticks `left` times, or until a tick once.
struct Prc {
    tid: usize,
    every: Option<usize>,
    until: usize,
    left: usize,
    delay: Option<Delay>,
}

impl Prc {
    /// Run until the next wait: set up the delay and send its order.
    fn next_wait(&mut self, idx: usize, cur: usize, api: &mut SchedulerAPI<usize>) {
        if self.left == 0 {
            api.unregister_prc();
            return;
        }
        let mut d = match self.every {
            Some(delay) => Delay::wait_for(cur, delay),
            None => Delay::wait_until(cur, self.until),
        };
        match d.poll(cur) {
            DelayPoll::Pending(Some(t)) => {
                api.push_order(Order::WaitUntil(t, idx));
            }
            other => panic!("unexpected {other:?}"),
        }
        self.delay = Some(d);
    }
}

/// Run processes until the scheduler stops, logging (tid, tick) at each
/// wake-up, the way the asynchronous driver does.
fn run(prcs: &mut Vec<Prc>, duration: usize) -> (Vec<(usize, usize)>, ExitKind) {
    let mut api: SchedulerAPI<usize> = SchedulerAPI::new(400);
    let mut sched: Scheduler<usize> = Scheduler::new(400);
    let mut cur = 0;
    let mut log = Vec::new();
    for _ in 0..prcs.len() {
        api.register_new_prc();
    }
    for (idx, p) in prcs.iter_mut().enumerate() {
        p.next_wait(idx, cur, &mut api);
    }
    loop {
        assert!(api.delta_cycle_ended());
        while let Some(order) = api.pop_order() {
            if let Some(kind) = sched.accept_order(order, cur) {
                return (log, kind);
            }
        }
        let next = match sched.next_step(duration, api.force_early_exit()) {
            Ok(t) => t,
            Err(kind) => return (log, kind),
        };
        cur = next;
        let mut woken = Vec::new();
        for a in sched.pop_due(next) {
            if let Wake::Waker(w) = a {
                woken.push(w);
            }
        }
        api.wake_prc(woken.len());
        for idx in woken {
            let p = &mut prcs[idx];
            let d = p.delay.as_mut().unwrap();
            assert_eq!(DelayPoll::Ready, d.poll(cur));
            log.push((p.tid, cur));
            p.left -= 1;
            p.next_wait(idx, cur, &mut api);
        }
    }
}

#[test]
fn test_delay() {
    let mut prcs = vec![
        Prc { tid: 1, every: Some(40), until: 0, left: 5, delay: None },
        Prc { tid: 2, every: Some(51), until: 0, left: 4, delay: None },
        Prc { tid: 3, every: None, until: 100, left: 1, delay: None },
        Prc { tid: 4, every: None, until: 202, left: 1, delay: None },
    ];
    let (prc_log, kind) = run(&mut prcs, 400);
    assert_eq!(
        prc_log,
        vec![
            (1, 40),
            (2, 51),
            (1, 80),
            (3, 100),
            (2, 102),
            (1, 120),
            (2, 153),
            (1, 160),
            (1, 200),
            (4, 202),
            (2, 204)
        ]
    );
    assert_eq!(ExitKind::NoHwPrc, kind);
}

#[test]
fn simulation_stops_at_its_duration() {
    let mut prcs = vec![Prc { tid: 1, every: Some(40), until: 0, left: 100, delay: None }];
    let (prc_log, kind) = run(&mut prcs, 130);
    assert_eq!(vec![(1, 40), (1, 80), (1, 120)], prc_log);
    assert_eq!(ExitKind::EndOfTick, kind);
}

#[test]
fn test_module() {
    // Hierarchy: root with modA and modB, bound modA::port_a -> modB::port_b.
    let mut uids = UidGen::new();
    let mut root = Area::new(Properties::new("root".to_owned(), 1_000_000_000, &mut uids));
    let mod_a = Area::leaf(root.child_properties("modA", PropertiesOverride::default(), &mut uids));
    root.insert_module(mod_a);
    let mod_b = Area::leaf(root.child_properties("modB", PropertiesOverride::default(), &mut uids));
    root.insert_module(mod_b);
    let (from, to) = root.inner_bind("modA::port_a", "modB::port_b").unwrap();
    assert_eq!("root::modA", root.path(from.unwrap().0).as_str());
    assert_eq!("root::modB", root.path(to.unwrap().0).as_str());

    // modA runs two delay_for processes, modB two delay_until ones.
    let mut prcs = vec![
        Prc { tid: 1, every: Some(40), until: 0, left: 5, delay: None },
        Prc { tid: 2, every: Some(51), until: 0, left: 4, delay: None },
        Prc { tid: 3, every: None, until: 100, left: 1, delay: None },
        Prc { tid: 4, every: None, until: 202, left: 1, delay: None },
    ];
    let (prc_log, _) = run(&mut prcs, 400);
    assert_eq!(
        prc_log,
        vec![
            (1, 40),
            (2, 51),
            (1, 80),
            (3, 100),
            (2, 102),
            (1, 120),
            (2, 153),
            (1, 160),
            (1, 200),
            (4, 202),
            (2, 204)
        ]
    );
}

#[test]
fn processes_wake_exactly_at_their_tick() {
    let mut s: Scheduler<&'static str> = Scheduler::new(4);
    // at tick 2: "late" waits until 5, "past" until 1 (so the next tick, 3)
    assert_eq!(s.accept_order(Order::WaitUntil(5, "late"), 2), None);
    assert_eq!(s.accept_order(Order::WaitUntil(1, "past"), 2), None);
    assert_eq!(s.next_step(10, false), Ok(3));
    assert_eq!(wakes(s.pop_due(3)), vec!["past".to_owned()]);
    assert_eq!(s.next_step(10, false), Ok(5));
    assert_eq!(wakes(s.pop_due(5)), vec!["late".to_owned()]);
    assert_eq!(s.next_step(10, false), Err(ExitKind::NoHwPrc));
    // a wake-up beyond the duration ends the run
    assert_eq!(s.accept_order(Order::WaitUntil(20, "far"), 5), None);
    assert_eq!(s.next_step(10, false), Err(ExitKind::EndOfTick));
}
