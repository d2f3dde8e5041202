//! Decisions of the simulation scheduler.
//!
//! Hardware processes send orders to the scheduler: wait until a tick, wait
//! on an event, notify an event at a tick, or exit. Between two delta-cycles
//! the scheduler files the orders, picks the next simulation tick, and
//! releases the tasks due at that tick. The wakers of the processes are
//! carried as opaque values of type `W`.

use vstd::prelude::*;

verus! {

/// Simulation time, in ticks.
pub type Tick = usize;

/// Why a simulation run stopped.
#[derive(Debug, Clone, Copy, PartialEq, Eq, Structural)]
pub enum ExitKind {
    NoHwPrc,
    EndOfTick,
    PrcExit,
}

/// Order sent by a hardware process to the scheduler.
pub enum Order<W> {
    /// Wake the waker at the given tick.
    WaitUntil(Tick, W),
    /// Wake the waker when the event is notified.
    WaitOn(usize, W),
    /// Notify the event at the given tick.
    NotifyAt(Tick, usize),
    /// Stop the simulation.
    Exit(ExitKind),
}

impl<W> Order<W> {
    /// Whether the process that sends the order halts until it is woken up.
    pub fn halts(&self) -> (r: bool)
        ensures
            r == (*self is WaitUntil || *self is WaitOn),
    {
        match self {
            Order::WaitUntil(..) => true,
            Order::NotifyAt(..) => false,
            Order::Exit(_) => false,
            Order::WaitOn(..) => true,
        }
    }
}

/// Task to be processed by the scheduler at a given tick.
pub enum Task<W> {
    Wakeup(Tick, W),
    Notify(Tick, usize),
}

impl<W> Task<W> {
    /// The tick at which the task is due.
    pub open spec fn spec_tick(&self) -> Tick {
        match *self {
            Task::Wakeup(t, _) => t,
            Task::Notify(t, _) => t,
        }
    }

    /// The tick at which the task is due.
    pub fn tick(&self) -> (r: Tick)
        ensures
            r == self.spec_tick(),
    {
        match self {
            Task::Wakeup(t, _) => *t,
            Task::Notify(t, _) => *t,
        }
    }
}

/// What the scheduler asks of the runtime when it releases tasks.
pub enum Wake<W> {
    /// Wake a process.
    Waker(W),
    /// Record that the event was triggered.
    Event(usize),
}

/// The wakers registered on `evt`, in registration order.
pub open spec fn wakers_of<W>(regs: Seq<(usize, W)>, evt: usize) -> Seq<W>
    decreases regs.len(),
{
    if regs.len() == 0 {
        Seq::empty()
    } else if regs.last().0 == evt {
        wakers_of(regs.drop_last(), evt).push(regs.last().1)
    } else {
        wakers_of(regs.drop_last(), evt)
    }
}

/// The registrations on other events than `evt`.
pub open spec fn regs_without<W>(regs: Seq<(usize, W)>, evt: usize) -> Seq<(usize, W)>
    decreases regs.len(),
{
    if regs.len() == 0 {
        Seq::empty()
    } else if regs.last().0 == evt {
        regs_without(regs.drop_last(), evt)
    } else {
        regs_without(regs.drop_last(), evt).push(regs.last())
    }
}

/// Waker actions for a sequence of wakers.
pub open spec fn wake_all<W>(ws: Seq<W>) -> Seq<Wake<W>> {
    ws.map_values(|w: W| Wake::Waker(w))
}

/// Releasing the due tasks in order: the actions asked of the runtime and
/// the registrations left.
pub open spec fn run_due<W>(due: Seq<Task<W>>, regs: Seq<(usize, W)>) -> (Seq<Wake<W>>, Seq<
    (usize, W),
>)
    decreases due.len(),
{
    if due.len() == 0 {
        (Seq::empty(), regs)
    } else {
        match due[0] {
            Task::Wakeup(_, w) => {
                let rest = run_due(due.drop_first(), regs);
                (seq![Wake::Waker(w)] + rest.0, rest.1)
            },
            Task::Notify(_, evt) => {
                let rest = run_due(due.drop_first(), regs_without(regs, evt));
                (seq![Wake::Event(evt)] + wake_all(wakers_of(regs, evt)) + rest.0, rest.1)
            },
        }
    }
}

/// The tasks due at or before `t`, in order.
pub open spec fn due_at<W>(tasks: Seq<Task<W>>, t: Tick) -> Seq<Task<W>>
    decreases tasks.len(),
{
    if tasks.len() == 0 {
        Seq::empty()
    } else if tasks.last().spec_tick() <= t {
        due_at(tasks.drop_last(), t).push(tasks.last())
    } else {
        due_at(tasks.drop_last(), t)
    }
}

/// The tasks due after `t`, in order.
pub open spec fn later_than<W>(tasks: Seq<Task<W>>, t: Tick) -> Seq<Task<W>>
    decreases tasks.len(),
{
    if tasks.len() == 0 {
        Seq::empty()
    } else if tasks.last().spec_tick() <= t {
        later_than(tasks.drop_last(), t)
    } else {
        later_than(tasks.drop_last(), t).push(tasks.last())
    }
}

/// Every task is due after `t`.
pub open spec fn all_after<W>(tasks: Seq<Task<W>>, t: Tick) -> bool {
    forall|i: int| 0 <= i < tasks.len() ==> #[trigger] tasks[i].spec_tick() > t
}

/// `m` is the earliest tick of the tasks.
pub open spec fn is_min_tick<W>(tasks: Seq<Task<W>>, m: Tick) -> bool {
    &&& exists|i: int| 0 <= i < tasks.len() && #[trigger] tasks[i].spec_tick() == m
    &&& forall|i: int| 0 <= i < tasks.len() ==> m <= #[trigger] tasks[i].spec_tick()
}

proof fn lemma_later_than_after<W>(tasks: Seq<Task<W>>, t: Tick)
    ensures
        all_after(later_than(tasks, t), t),
    decreases tasks.len(),
{
    if tasks.len() > 0 {
        lemma_later_than_after(tasks.drop_last(), t);
    }
}

proof fn lemma_later_than_all_after<W>(tasks: Seq<Task<W>>, t: Tick)
    requires
        all_after(tasks, t),
    ensures
        later_than(tasks, t) == tasks,
    decreases tasks.len(),
{
    if tasks.len() > 0 {
        let d = tasks.drop_last();
        assert(all_after(d, t)) by {
            assert forall|i: int| 0 <= i < d.len() implies #[trigger] d[i].spec_tick() > t by {
                assert(d[i] == tasks[i]);
            }
        }
        lemma_later_than_all_after(d, t);
        assert(tasks.last().spec_tick() > t);
        assert(d.push(tasks.last()) =~= tasks);
    }
}

proof fn lemma_later_than_subset<W>(tasks: Seq<Task<W>>, t: Tick, u: Tick)
    requires
        all_after(tasks, u),
    ensures
        all_after(later_than(tasks, t), u),
    decreases tasks.len(),
{
    if tasks.len() > 0 {
        let d = tasks.drop_last();
        assert(all_after(d, u)) by {
            assert forall|i: int| 0 <= i < d.len() implies #[trigger] d[i].spec_tick() > u by {
                assert(d[i] == tasks[i]);
            }
        }
        lemma_later_than_subset(d, t, u);
        assert(tasks[tasks.len() - 1].spec_tick() > u);
    }
}

proof fn lemma_due_bounds<W>(tasks: Seq<Task<W>>, t: Tick, lo: Tick)
    requires
        forall|j: int| 0 <= j < tasks.len() ==> lo <= #[trigger] tasks[j].spec_tick(),
    ensures
        forall|i: int|
            0 <= i < due_at(tasks, t).len() ==> lo <= #[trigger] due_at(tasks, t)[i].spec_tick()
                <= t,
    decreases tasks.len(),
{
    if tasks.len() > 0 {
        let d = tasks.drop_last();
        assert forall|j: int| 0 <= j < d.len() implies lo <= #[trigger] d[j].spec_tick() by {
            assert(d[j] == tasks[j]);
        }
        lemma_due_bounds(d, t, lo);
        assert(lo <= tasks[tasks.len() - 1].spec_tick());
        let dd = due_at(d, t);
        if tasks.last().spec_tick() <= t {
            let nd = due_at(tasks, t);
            assert(nd == dd.push(tasks.last()));
            assert forall|i: int| 0 <= i < nd.len() implies lo <= #[trigger] nd[i].spec_tick()
                <= t by {
                if i < dd.len() {
                    assert(nd[i] == dd[i]);
                }
            }
        }
    }
}

/// Simulated time only moves forward. When every waiting task is due after
/// the current tick, the next tick is later than the current one, the tasks
/// released at the next tick are exactly due at it, and every task left is
/// due after it.
pub proof fn law_time_advances<W>(tasks: Seq<Task<W>>, cur: Tick, m: Tick)
    requires
        all_after(tasks, cur),
        is_min_tick(tasks, m),
    ensures
        m > cur,
        forall|i: int|
            0 <= i < due_at(tasks, m).len() ==> #[trigger] due_at(tasks, m)[i].spec_tick() == m,
        all_after(later_than(tasks, m), m),
{
    let i = choose|i: int| 0 <= i < tasks.len() && #[trigger] tasks[i].spec_tick() == m;
    assert(tasks[i].spec_tick() > cur);
    lemma_due_bounds(tasks, m, m);
    lemma_later_than_after(tasks, m);
}

proof fn lemma_due_at_contains<W>(tasks: Seq<Task<W>>, t: Tick, k: int)
    requires
        0 <= k < tasks.len(),
        tasks[k].spec_tick() <= t,
    ensures
        due_at(tasks, t).contains(tasks[k]),
    decreases tasks.len(),
{
    let d = tasks.drop_last();
    if k == tasks.len() - 1 {
        assert(due_at(tasks, t).last() == tasks[k]);
    } else {
        assert(d[k] == tasks[k]);
        lemma_due_at_contains(d, t, k);
        let j = choose|j: int| 0 <= j < due_at(d, t).len() && due_at(d, t)[j] == tasks[k];
        if tasks.last().spec_tick() <= t {
            assert(due_at(tasks, t)[j] == tasks[k]);
        }
    }
}

proof fn lemma_later_than_contains<W>(tasks: Seq<Task<W>>, t: Tick, k: int)
    requires
        0 <= k < tasks.len(),
        tasks[k].spec_tick() > t,
    ensures
        later_than(tasks, t).contains(tasks[k]),
    decreases tasks.len(),
{
    let d = tasks.drop_last();
    if k == tasks.len() - 1 {
        assert(later_than(tasks, t).last() == tasks[k]);
    } else {
        assert(d[k] == tasks[k]);
        lemma_later_than_contains(d, t, k);
        let j = choose|j: int| 0 <= j < later_than(d, t).len() && later_than(d, t)[j] == tasks[k];
        if tasks.last().spec_tick() > t {
            assert(later_than(tasks, t)[j] == tasks[k]);
        }
    }
}

proof fn lemma_run_due_wakes<W>(due: Seq<Task<W>>, regs: Seq<(usize, W)>, t: Tick, w: W)
    requires
        due.contains(Task::Wakeup(t, w)),
    ensures
        run_due(due, regs).0.contains(Wake::Waker(w)),
    decreases due.len(),
{
    let j = choose|j: int| 0 <= j < due.len() && due[j] == Task::<W>::Wakeup(t, w);
    match due[0] {
        Task::Wakeup(_, w0) => {
            let rest = run_due(due.drop_first(), regs);
            if j == 0 {
                assert(run_due(due, regs).0[0] == Wake::<W>::Waker(w));
            } else {
                assert(due.drop_first()[j - 1] == due[j]);
                lemma_run_due_wakes(due.drop_first(), regs, t, w);
                let i = choose|i: int| 0 <= i < rest.0.len() && rest.0[i] == Wake::<W>::Waker(w);
                assert(run_due(due, regs).0[i + 1] == rest.0[i]);
            }
        },
        Task::Notify(_, evt) => {
            assert(j != 0);
            let regs2 = regs_without(regs, evt);
            let rest = run_due(due.drop_first(), regs2);
            assert(due.drop_first()[j - 1] == due[j]);
            lemma_run_due_wakes(due.drop_first(), regs2, t, w);
            let i = choose|i: int| 0 <= i < rest.0.len() && rest.0[i] == Wake::<W>::Waker(w);
            let head = seq![Wake::<W>::Event(evt)] + wake_all(wakers_of(regs, evt));
            assert(run_due(due, regs).0 == head + rest.0);
            assert(run_due(due, regs).0[head.len() + i] == rest.0[i]);
        },
    }
}

/// A process waiting for a tick is woken exactly at that tick. At a step of
/// the simulation, where the scheduler moves to the earliest tick `m` of the
/// waiting tasks (all due after the current tick), a task due at `m` is
/// released, and a process waiting on it is woken; a task due later stays
/// waiting, still due after `m`.
pub proof fn law_woken_at_its_tick<W>(tasks: Seq<Task<W>>, regs: Seq<(usize, W)>, cur: Tick, m: Tick, k: int)
    requires
        all_after(tasks, cur),
        is_min_tick(tasks, m),
        0 <= k < tasks.len(),
    ensures
        m > cur,
        tasks[k].spec_tick() >= m,
        tasks[k].spec_tick() == m ==> due_at(tasks, m).contains(tasks[k]),
        tasks[k] matches Task::Wakeup(t, w) ==> (t == m ==> run_due(due_at(tasks, m), regs).0.contains(
            Wake::Waker(w),
        )),
        tasks[k].spec_tick() > m ==> later_than(tasks, m).contains(tasks[k]),
{
    law_time_advances(tasks, cur, m);
    if tasks[k].spec_tick() == m {
        lemma_due_at_contains(tasks, m, k);
        if let Task::Wakeup(t, w) = tasks[k] {
            lemma_run_due_wakes(due_at(tasks, m), regs, t, w);
        }
    } else {
        lemma_later_than_contains(tasks, m, k);
    }
}

/// When the earliest waiting task is due after the duration, the run ends
/// (`EndOfTick`) with every waiting task due after the duration: no process
/// that waits for a tick within the duration is left asleep.
pub proof fn law_run_ends_after_duration<W>(tasks: Seq<Task<W>>, m: Tick, duration: Tick)
    requires
        is_min_tick(tasks, m),
        m > duration,
    ensures
        all_after(tasks, duration),
{
}

/// The earliest tick of the tasks (of a non-empty sequence).
pub open spec fn min_tick<W>(tasks: Seq<Task<W>>) -> Tick
    decreases tasks.len(),
{
    if tasks.len() <= 1 {
        tasks[0].spec_tick()
    } else {
        let m = min_tick(tasks.drop_last());
        if tasks.last().spec_tick() < m {
            tasks.last().spec_tick()
        } else {
            m
        }
    }
}

/// The earliest tick is the only one that `is_min_tick` describes.
pub proof fn lemma_min_tick<W>(tasks: Seq<Task<W>>, m: Tick)
    requires
        tasks.len() > 0,
    ensures
        is_min_tick(tasks, min_tick(tasks)),
        is_min_tick(tasks, m) ==> m == min_tick(tasks),
    decreases tasks.len(),
{
    if tasks.len() > 1 {
        let d = tasks.drop_last();
        lemma_min_tick(d, m);
        let dm = min_tick(d);
        let i = choose|i: int| 0 <= i < d.len() && #[trigger] d[i].spec_tick() == dm;
        assert(tasks[i] == d[i]);
        assert forall|j: int| 0 <= j < tasks.len() implies min_tick(tasks) <= #[trigger] tasks[j].spec_tick() by {
            if j < d.len() {
                assert(tasks[j] == d[j]);
            }
        }
        if tasks.last().spec_tick() < dm {
            assert(tasks[tasks.len() - 1].spec_tick() == min_tick(tasks));
        }
    } else {
        assert(tasks[0].spec_tick() == min_tick(tasks));
    }
    if is_min_tick(tasks, m) {
        let i = choose|i: int| 0 <= i < tasks.len() && #[trigger] tasks[i].spec_tick() == m;
        let j = choose|j: int| 0 <= j < tasks.len() && #[trigger] tasks[j].spec_tick() == min_tick(tasks);
        assert(m <= tasks[j].spec_tick());
        assert(min_tick(tasks) <= tasks[i].spec_tick());
    }
}

/// The tasks are split between those due at `t` and the later ones.
proof fn lemma_split_len<W>(tasks: Seq<Task<W>>, t: Tick)
    ensures
        due_at(tasks, t).len() + later_than(tasks, t).len() == tasks.len(),
    decreases tasks.len(),
{
    if tasks.len() > 0 {
        lemma_split_len(tasks.drop_last(), t);
    }
}

/// Every task left after `t` is one of the tasks.
proof fn lemma_later_than_from<W>(tasks: Seq<Task<W>>, t: Tick, j: int)
    requires
        0 <= j < later_than(tasks, t).len(),
    ensures
        tasks.contains(later_than(tasks, t)[j]),
    decreases tasks.len(),
{
    let d = tasks.drop_last();
    let l = later_than(tasks, t);
    if tasks.last().spec_tick() > t && j == l.len() - 1 {
        assert(tasks[tasks.len() - 1] == l[j]);
    } else {
        assert(l[j] == later_than(d, t)[j]);
        lemma_later_than_from(d, t, j);
        let i = choose|i: int| 0 <= i < d.len() && d[i] == l[j];
        assert(tasks[i] == d[i]);
    }
}

/// A step releases at least the earliest task.
pub proof fn lemma_step_shrinks<W>(tasks: Seq<Task<W>>)
    requires
        tasks.len() > 0,
    ensures
        later_than(tasks, min_tick(tasks)).len() < tasks.len(),
{
    lemma_min_tick(tasks, 0);
    let m = min_tick(tasks);
    let i = choose|i: int| 0 <= i < tasks.len() && #[trigger] tasks[i].spec_tick() == m;
    lemma_due_at_contains(tasks, m, i);
    lemma_split_len(tasks, m);
}

/// The steps of a run of the scheduler, from the waiting `tasks` and the
/// registrations `regs`, when no process sends new orders: at each step
/// the scheduler moves to the earliest tick (if within `duration`) and
/// releases what is due there, giving the tick and the actions asked of
/// the runtime; then how the run ends.
pub open spec fn run_steps<W>(tasks: Seq<Task<W>>, regs: Seq<(usize, W)>, duration: Tick) -> (Seq<
    (Tick, Seq<Wake<W>>),
>, ExitKind)
    decreases tasks.len(),
{
    if tasks.len() == 0 {
        (Seq::empty(), ExitKind::NoHwPrc)
    } else {
        let m = min_tick(tasks);
        if m > duration {
            (Seq::empty(), ExitKind::EndOfTick)
        } else {
            proof {
                lemma_step_shrinks(tasks);
            }
            let step = run_due(due_at(tasks, m), regs);
            let rest = run_steps(later_than(tasks, m), step.1, duration);
            (seq![(m, step.0)] + rest.0, rest.1)
        }
    }
}

/// Over a whole run in which no process sends new orders, from tasks all
/// due after the current tick `cur`:
/// - time only moves forward: the step ticks are increasing, after `cur`
///   and within the duration;
/// - a process waiting for tick `t` (a wake-up task, filed at
///   `max(w, c + 1)` by `accept_order`) is woken at the step of tick `t`
///   when `t` is within the duration;
/// - the run ends with `EndOfTick` when some task is due after the
///   duration, else with `NoHwPrc`.
pub proof fn law_run<W>(tasks: Seq<Task<W>>, regs: Seq<(usize, W)>, cur: Tick, duration: Tick)
    requires
        all_after(tasks, cur),
    ensures
        ({
            let steps = run_steps(tasks, regs, duration).0;
            &&& forall|i: int, j: int| 0 <= i < j < steps.len() ==> steps[i].0 < steps[j].0
            &&& forall|i: int| 0 <= i < steps.len() ==> cur < #[trigger] steps[i].0 <= duration
            &&& forall|k: int|
                0 <= k < tasks.len() ==> (#[trigger] tasks[k] matches Task::Wakeup(t, w) ==> (t
                    <= duration ==> exists|j: int|
                    0 <= j < steps.len() && steps[j].0 == t && #[trigger] steps[j].1.contains(
                        Wake::Waker(w),
                    )))
        }),
        run_steps(tasks, regs, duration).1 == (if exists|k: int|
            0 <= k < tasks.len() && #[trigger] tasks[k].spec_tick() > duration {
            ExitKind::EndOfTick
        } else {
            ExitKind::NoHwPrc
        }),
    decreases tasks.len(),
{
    if tasks.len() == 0 {
        return;
    }
    lemma_min_tick(tasks, 0);
    let m = min_tick(tasks);
    law_time_advances(tasks, cur, m);
    if m > duration {
        let i = choose|i: int| 0 <= i < tasks.len() && #[trigger] tasks[i].spec_tick() == m;
        assert(tasks[i].spec_tick() > duration);
        assert forall|k: int| 0 <= k < tasks.len() implies (#[trigger] tasks[k] matches Task::Wakeup(t, w)
            ==> (t <= duration ==> false)) by {
            assert(m <= tasks[k].spec_tick());
        }
        return;
    }
    lemma_step_shrinks(tasks);
    let step = run_due(due_at(tasks, m), regs);
    let later = later_than(tasks, m);
    law_run(later, step.1, m, duration);
    let rest = run_steps(later, step.1, duration);
    let steps = run_steps(tasks, regs, duration).0;
    assert(steps == seq![(m, step.0)] + rest.0);
    assert forall|i: int, j: int| 0 <= i < j < steps.len() implies steps[i].0 < steps[j].0 by {
        if i > 0 {
            assert(steps[i] == rest.0[i - 1]);
        }
        assert(steps[j] == rest.0[j - 1]);
    }
    assert forall|i: int| 0 <= i < steps.len() implies cur < #[trigger] steps[i].0 <= duration by {
        if i > 0 {
            assert(steps[i] == rest.0[i - 1]);
        }
    }
    assert forall|k: int|
        0 <= k < tasks.len() implies (#[trigger] tasks[k] matches Task::Wakeup(t, w) ==> (t <= duration
            ==> exists|j: int|
            0 <= j < steps.len() && steps[j].0 == t && #[trigger] steps[j].1.contains(Wake::Waker(w)))) by {
        if let Task::Wakeup(t, w) = tasks[k] {
            if t <= duration {
                law_woken_at_its_tick(tasks, regs, cur, m, k);
                if t == m {
                    assert(steps[0].1.contains(Wake::Waker(w)));
                } else {
                    let kk = choose|kk: int| 0 <= kk < later.len() && later[kk] == tasks[k];
                    assert(later[kk] matches Task::Wakeup(t2, w2) && t2 == t && w2 == w);
                    let j = choose|j: int|
                        0 <= j < rest.0.len() && rest.0[j].0 == t && #[trigger] rest.0[j].1.contains(
                            Wake::Waker(w),
                        );
                    assert(steps[j + 1] == rest.0[j]);
                }
            }
        }
    }
    // How the run ends
    let ends_late = exists|k: int| 0 <= k < tasks.len() && #[trigger] tasks[k].spec_tick() > duration;
    let later_late = exists|k: int| 0 <= k < later.len() && #[trigger] later[k].spec_tick() > duration;
    if ends_late {
        let k = choose|k: int| 0 <= k < tasks.len() && #[trigger] tasks[k].spec_tick() > duration;
        lemma_later_than_contains(tasks, m, k);
        let kk = choose|kk: int| 0 <= kk < later.len() && later[kk] == tasks[k];
        assert(later[kk].spec_tick() > duration);
    }
    if later_late {
        let kk = choose|kk: int| 0 <= kk < later.len() && #[trigger] later[kk].spec_tick() > duration;
        lemma_later_than_from(tasks, m, kk);
        let k = choose|k: int| 0 <= k < tasks.len() && tasks[k] == later[kk];
        assert(tasks[k].spec_tick() > duration);
    }
}

/// The scheduler state: tasks waiting on a tick, and wakers waiting on an
/// event.
pub struct Scheduler<W> {
    wait_on_tick: Vec<Task<W>>,
    wait_on_event: Vec<(usize, W)>,
}

impl<W> Scheduler<W> {
    /// Tasks waiting on a tick, in the order they were filed.
    pub closed spec fn tasks(&self) -> Seq<Task<W>> {
        self.wait_on_tick@
    }

    /// Registrations (event, waker) waiting on an event, in the order they
    /// were filed.
    pub closed spec fn waiting(&self) -> Seq<(usize, W)> {
        self.wait_on_event@
    }

    /// An idle scheduler for `max_hw_process` processes.
    pub fn new(max_hw_process: usize) -> (r: Self)
        ensures
            r.tasks() == Seq::<Task<W>>::empty(),
            r.waiting() == Seq::<(usize, W)>::empty(),
    {
        Scheduler { wait_on_tick: Vec::with_capacity(max_hw_process), wait_on_event: Vec::new() }
    }

    /// File an order received at `cur_tick`. Tasks are never due before the
    /// next tick. An exit order is handed back.
    pub fn accept_order(&mut self, order: Order<W>, cur_tick: Tick) -> (r: Option<ExitKind>)
        requires
            cur_tick < usize::MAX,
        ensures
            match order {
                Order::WaitUntil(t, w) => r is None && final(self).waiting() == old(self).waiting()
                    && final(self).tasks() == old(self).tasks().push(
                    Task::Wakeup(if t > cur_tick + 1 { t } else { (cur_tick + 1) as usize }, w),
                ),
                Order::NotifyAt(t, evt) => r is None && final(self).waiting() == old(self).waiting() && final(self).tasks() == old(self).tasks().push(
                    Task::Notify(if t > cur_tick + 1 { t } else { (cur_tick + 1) as usize }, evt),
                ),
                Order::WaitOn(evt, w) => r is None && final(self).tasks() == old(self).tasks()
                    && final(self).waiting() == old(self).waiting().push((evt, w)),
                Order::Exit(kind) => r == Some(kind) && final(self).tasks() == old(self).tasks()
                    && final(self).waiting() == old(self).waiting(),
            },
            all_after(old(self).tasks(), cur_tick) ==> all_after(final(self).tasks(), cur_tick),
    {
        let next = cur_tick + 1;
        match order {
            Order::WaitUntil(t, w) => {
                let t = if t > next { t } else { next };
                self.wait_on_tick.push(Task::Wakeup(t, w));
                None
            },
            Order::NotifyAt(t, evt) => {
                let t = if t > next { t } else { next };
                self.wait_on_tick.push(Task::Notify(t, evt));
                None
            },
            Order::WaitOn(evt, w) => {
                self.wait_on_event.push((evt, w));
                None
            },
            Order::Exit(kind) => Some(kind),
        }
    }

    /// The earliest tick of the waiting tasks, if any.
    pub fn next_tick(&self) -> (r: Option<Tick>)
        ensures
            self.tasks().len() == 0 <==> r is None,
            r matches Some(m) ==> is_min_tick(self.tasks(), m),
    {
        if self.wait_on_tick.len() == 0 {
            return None;
        }
        let mut m = self.wait_on_tick[0].tick();
        let mut k: usize = 1;
        while k < self.wait_on_tick.len()
            invariant
                1 <= k <= self.wait_on_tick.len(),
                exists|i: int| 0 <= i < k && #[trigger] self.wait_on_tick@[i].spec_tick() == m,
                forall|i: int| 0 <= i < k ==> m <= #[trigger] self.wait_on_tick@[i].spec_tick(),
            decreases self.wait_on_tick.len() - k,
        {
            let t = self.wait_on_tick[k].tick();
            if t < m {
                m = t;
            }
            k = k + 1;
        }
        Some(m)
    }

    /// Decide how the simulation goes on: stop when no task waits, when the
    /// next tick is beyond `duration`, or on an early exit request; else
    /// advance to the next tick.
    pub fn next_step(&self, duration: Tick, force_early_exit: bool) -> (r: Result<Tick, ExitKind>)
        ensures
            self.tasks().len() == 0 ==> r == Err::<Tick, ExitKind>(ExitKind::NoHwPrc),
            self.tasks().len() > 0 ==> exists|m: Tick|
                #![trigger is_min_tick(self.tasks(), m)]
                is_min_tick(self.tasks(), m) && (if m > duration || force_early_exit {
                    r == Err::<Tick, ExitKind>(ExitKind::EndOfTick)
                } else {
                    r == Ok::<Tick, ExitKind>(m)
                }),
    {
        match self.next_tick() {
            None => Err(ExitKind::NoHwPrc),
            Some(next_tick) => {
                if next_tick > duration {
                    Err(ExitKind::EndOfTick)
                } else if force_early_exit {
                    Err(ExitKind::EndOfTick)
                } else {
                    Ok(next_tick)
                }
            },
        }
    }

    /// Release every task due at or before `tick`, in filing order: wake its
    /// process, or trigger its event and wake the processes waiting on it.
    pub fn pop_due(&mut self, tick: Tick) -> (actions: Vec<Wake<W>>)
        ensures
            final(self).tasks() == later_than(old(self).tasks(), tick),
            actions@ == run_due(due_at(old(self).tasks(), tick), old(self).waiting()).0,
            final(self).waiting() == run_due(due_at(old(self).tasks(), tick), old(self).waiting()).1,
    {
        // Split the due tasks from the later ones
        let mut pending: Vec<Task<W>> = Vec::new();
        std::mem::swap(&mut pending, &mut self.wait_on_tick);
        let ghost all = pending@;
        let mut due: Vec<Task<W>> = Vec::new();
        let mut kept: Vec<Task<W>> = Vec::new();
        proof {
            assert(all.take(0) =~= Seq::<Task<W>>::empty());
        }
        while pending.len() > 0
            invariant
                pending@.len() <= all.len(),
                pending@ == all.skip(all.len() - pending@.len()),
                due@ == due_at(all.take(all.len() - pending@.len()), tick),
                kept@ == later_than(all.take(all.len() - pending@.len()), tick),
                all == old(self).wait_on_tick@,
                self.wait_on_event@ == old(self).wait_on_event@,
            decreases pending@.len(),
        {
            let ghost n = all.len() - pending@.len();
            let task = pending.remove(0);
            proof {
                assert(task == all[n]);
                assert(pending@ =~= all.skip(n + 1));
                assert(all.take(n + 1).drop_last() =~= all.take(n));
                assert(all.take(n + 1).last() == all[n]);
            }
            if task.tick() <= tick {
                due.push(task);
            } else {
                kept.push(task);
            }
        }
        proof {
            assert(all.take(all.len() as int) =~= all);
        }
        self.wait_on_tick = kept;
        // Release the due tasks in order
        let ghost due_all = due@;
        let ghost regs0 = self.wait_on_event@;
        let mut actions: Vec<Wake<W>> = Vec::new();
        while due.len() > 0
            invariant
                actions@ + run_due(due@, self.wait_on_event@).0 == run_due(due_all, regs0).0,
                run_due(due@, self.wait_on_event@).1 == run_due(due_all, regs0).1,
                self.wait_on_tick@ == later_than(all, tick),
            decreases due@.len(),
        {
            let ghost d = due@;
            let task = due.remove(0);
            proof {
                assert(task == d[0]);
                assert(due@ =~= d.drop_first());
            }
            match task {
                Task::Wakeup(_, w) => {
                    proof {
                        assert(actions@.push(Wake::Waker(w)) =~= actions@ + seq![Wake::Waker(w)]);
                        assert(actions@ + (seq![Wake::Waker(w)] + run_due(due@, self.wait_on_event@).0)
                            =~= actions@.push(Wake::Waker(w)) + run_due(due@, self.wait_on_event@).0);
                    }
                    actions.push(Wake::Waker(w));
                },
                Task::Notify(_, evt) => {
                    let ghost regs = self.wait_on_event@;
                    let ghost before = actions@;
                    actions.push(Wake::Event(evt));
                    let mut ws = self.take_event(evt);
                    let ghost ws_all = ws@;
                    proof {
                        assert(ws_all.take(0) =~= Seq::<W>::empty());
                        assert(wake_all(ws_all.take(0)) =~= Seq::<Wake<W>>::empty());
                        assert(actions@ =~= before + seq![Wake::Event(evt)] + wake_all(ws_all.take(0)));
                    }
                    while ws.len() > 0
                        invariant
                            ws@.len() <= ws_all.len(),
                            ws@ == ws_all.skip(ws_all.len() - ws@.len()),
                            actions@ == before + seq![Wake::Event(evt)] + wake_all(
                                ws_all.take(ws_all.len() - ws@.len()),
                            ),
                        decreases ws@.len(),
                    {
                        let ghost j = ws_all.len() - ws@.len();
                        let w = ws.remove(0);
                        proof {
                            assert(w == ws_all[j]);
                            assert(ws@ =~= ws_all.skip(j + 1));
                            assert(wake_all(ws_all.take(j + 1)) =~= wake_all(ws_all.take(j)).push(
                                Wake::Waker(w),
                            ));
                        }
                        actions.push(Wake::Waker(w));
                    }
                    proof {
                        assert(ws_all.take(ws_all.len() as int) =~= ws_all);
                        assert(ws_all == wakers_of(regs, evt));
                        let rest = run_due(due@, self.wait_on_event@);
                        assert(run_due(d, regs).0 == seq![Wake::Event(evt)] + wake_all(ws_all)
                            + rest.0);
                        assert(actions@ + rest.0 =~= before + run_due(d, regs).0);
                    }
                },
            }
        }
        proof {
            assert(run_due(due@, self.wait_on_event@).0 =~= Seq::<Wake<W>>::empty());
            assert(actions@ =~= run_due(due_all, regs0).0);
        }
        actions
    }

    /// Remove and return the registrations on `evt`, keeping the others.
    fn take_event(&mut self, evt: usize) -> (r: Vec<W>)
        ensures
            r@ == wakers_of(old(self).waiting(), evt),
            final(self).waiting() == regs_without(old(self).waiting(), evt),
            final(self).tasks() == old(self).tasks(),
    {
        let mut regs: Vec<(usize, W)> = Vec::new();
        std::mem::swap(&mut regs, &mut self.wait_on_event);
        let ghost all = regs@;
        let mut kept: Vec<(usize, W)> = Vec::new();
        let mut taken: Vec<W> = Vec::new();
        let mut rest = regs;
        proof {
            assert(all.take(0) =~= Seq::<(usize, W)>::empty());
        }
        while rest.len() > 0
            invariant
                rest@.len() <= all.len(),
                rest@ == all.skip(all.len() - rest@.len()),
                taken@ == wakers_of(all.take(all.len() - rest@.len()), evt),
                kept@ == regs_without(all.take(all.len() - rest@.len()), evt),
                self.wait_on_tick@ == old(self).wait_on_tick@,
                all == old(self).wait_on_event@,
            decreases rest@.len(),
        {
            let ghost n = all.len() - rest@.len();
            let reg = rest.remove(0);
            proof {
                assert(reg == all[n]);
                assert(rest@ =~= all.skip(n + 1));
                assert(all.take(n + 1).drop_last() =~= all.take(n));
                assert(all.take(n + 1).last() == all[n]);
            }
            let (e, w) = reg;
            if e == evt {
                taken.push(w);
            } else {
                kept.push((e, w));
            }
        }
        proof {
            assert(all.take(all.len() as int) =~= all);
        }
        self.wait_on_event = kept;
        taken
    }
}

/// Process accounting and order queue between the hardware processes and
/// the scheduler. A delta-cycle ends when no process is alive; a halting
/// process, or the last alive one leaving, asks to wake the scheduler.
/// Counters move as atomic counters do: wrapping around.
pub struct SchedulerAPI<W> {
    /// Registered hardware processes.
    hw_prc: usize,
    /// Processes running in the current delta-cycle.
    alive_prc: isize,
    /// Processes waiting on a lock during the delta-cycle.
    locked_prc: usize,
    /// Processes released from a lock during the delta-cycle.
    unlocked_prc: usize,
    /// Lock releases during the delta-cycle.
    unlock_evt: usize,
    /// Orders sent by the processes, oldest first.
    order_q: Vec<Order<W>>,
    /// Most orders the queue holds.
    capacity: usize,
    /// The user asked for an early stop.
    force_early_exit: bool,
}

impl<W> SchedulerAPI<W> {
    pub closed spec fn spec_hw_prc(&self) -> usize {
        self.hw_prc
    }

    pub closed spec fn spec_alive_prc(&self) -> isize {
        self.alive_prc
    }

    pub closed spec fn spec_locked_prc(&self) -> usize {
        self.locked_prc
    }

    pub closed spec fn spec_unlocked_prc(&self) -> usize {
        self.unlocked_prc
    }

    pub closed spec fn spec_unlock_evt(&self) -> usize {
        self.unlock_evt
    }

    /// Queued orders, oldest first.
    pub closed spec fn orders(&self) -> Seq<Order<W>> {
        self.order_q@
    }

    pub closed spec fn spec_capacity(&self) -> usize {
        self.capacity
    }

    pub closed spec fn spec_force_early_exit(&self) -> bool {
        self.force_early_exit
    }

    /// The counters (registered, alive, locked, unlocked, lock releases).
    pub open spec fn counters(&self) -> (usize, isize, usize, usize, usize) {
        (
            self.spec_hw_prc(),
            self.spec_alive_prc(),
            self.spec_locked_prc(),
            self.spec_unlocked_prc(),
            self.spec_unlock_evt(),
        )
    }

    /// Accounting for at most `max_hw_process` queued orders, with no
    /// process.
    pub fn new(max_hw_process: usize) -> (r: Self)
        requires
            max_hw_process > 0,
        ensures
            r.counters() == (0usize, 0isize, 0usize, 0usize, 0usize),
            r.orders() == Seq::<Order<W>>::empty(),
            r.spec_capacity() == max_hw_process,
            !r.spec_force_early_exit(),
    {
        SchedulerAPI {
            hw_prc: 0,
            alive_prc: 0,
            locked_prc: 0,
            unlocked_prc: 0,
            unlock_evt: 0,
            order_q: Vec::new(),
            capacity: max_hw_process,
            force_early_exit: false,
        }
    }

    /// Start a new simulation with at most `max_hw_process` processes: no
    /// process is alive and no order is queued. Returns the queue capacity.
    pub fn reset(&mut self, max_hw_process: usize) -> (r: usize)
        requires
            old(self).spec_capacity() >= max_hw_process,
        ensures
            r == old(self).spec_capacity(),
            final(self).spec_alive_prc() == 0,
            final(self).orders() == Seq::<Order<W>>::empty(),
            final(self).spec_hw_prc() == old(self).spec_hw_prc(),
            final(self).spec_locked_prc() == old(self).spec_locked_prc(),
            final(self).spec_unlocked_prc() == old(self).spec_unlocked_prc(),
            final(self).spec_unlock_evt() == old(self).spec_unlock_evt(),
            final(self).spec_capacity() == old(self).spec_capacity(),
            final(self).spec_force_early_exit() == old(self).spec_force_early_exit(),
    {
        self.alive_prc = 0;
        self.order_q = Vec::new();
        self.capacity
    }

    /// Whether the delta-cycle is over: no process is alive.
    pub fn delta_cycle_ended(&self) -> (r: bool)
        ensures
            r == (self.spec_alive_prc() == 0),
    {
        self.alive_prc == 0
    }

    /// One process less is alive; returns whether it was the last one, so
    /// that the scheduler is to be woken.
    fn leave(&mut self) -> (wake: bool)
        ensures
            final(self).spec_alive_prc() == vstd::wrapping::isize_specs::wrapping_sub(
                old(self).spec_alive_prc(),
                1,
            ),
            wake == (old(self).spec_alive_prc() == 1),
            final(self).spec_hw_prc() == old(self).spec_hw_prc(),
            final(self).spec_locked_prc() == old(self).spec_locked_prc(),
            final(self).spec_unlocked_prc() == old(self).spec_unlocked_prc(),
            final(self).spec_unlock_evt() == old(self).spec_unlock_evt(),
            final(self).orders() == old(self).orders(),
            final(self).spec_capacity() == old(self).spec_capacity(),
            final(self).spec_force_early_exit() == old(self).spec_force_early_exit(),
    {
        let pre = self.alive_prc;
        self.alive_prc = pre.wrapping_sub(1);
        pre == 1
    }

    /// Queue an order of a process; a halting order also makes the process
    /// leave the delta-cycle. Returns whether the scheduler is to be woken.
    pub fn push_order(&mut self, order: Order<W>) -> (wake: bool)
        requires
            old(self).orders().len() < old(self).spec_capacity(),
        ensures
            final(self).orders() == old(self).orders().push(order),
            (order is WaitUntil || order is WaitOn) ==> final(self).spec_alive_prc()
                == vstd::wrapping::isize_specs::wrapping_sub(old(self).spec_alive_prc(), 1) && wake
                == (old(self).spec_alive_prc() == 1),
            !(order is WaitUntil || order is WaitOn) ==> final(self).spec_alive_prc() == old(
                self,
            ).spec_alive_prc() && !wake,
            final(self).spec_hw_prc() == old(self).spec_hw_prc(),
            final(self).spec_locked_prc() == old(self).spec_locked_prc(),
            final(self).spec_unlocked_prc() == old(self).spec_unlocked_prc(),
            final(self).spec_unlock_evt() == old(self).spec_unlock_evt(),
            final(self).spec_capacity() == old(self).spec_capacity(),
            final(self).spec_force_early_exit() == old(self).spec_force_early_exit(),
    {
        let halt_prc = order.halts();
        self.order_q.push(order);
        if halt_prc {
            self.leave()
        } else {
            false
        }
    }

    /// Take the oldest queued order.
    pub fn pop_order(&mut self) -> (r: Option<Order<W>>)
        ensures
            old(self).orders().len() == 0 ==> r is None && final(self).orders() == old(self).orders(),
            old(self).orders().len() > 0 ==> r == Some(old(self).orders()[0]) && final(self).orders()
                == old(self).orders().skip(1),
            final(self).counters() == old(self).counters(),
            final(self).spec_capacity() == old(self).spec_capacity(),
            final(self).spec_force_early_exit() == old(self).spec_force_early_exit(),
    {
        if self.order_q.len() == 0 {
            None
        } else {
            let o = self.order_q.remove(0);
            proof {
                assert(self.order_q@ =~= old(self).order_q@.skip(1));
            }
            Some(o)
        }
    }

    /// Register a new process; it is alive until it first waits.
    pub fn register_new_prc(&mut self)
        ensures
            final(self).counters() == after_register(old(self).counters()),
            final(self).orders() == old(self).orders(),
            final(self).spec_capacity() == old(self).spec_capacity(),
            final(self).spec_force_early_exit() == old(self).spec_force_early_exit(),
    {
        self.hw_prc = self.hw_prc.wrapping_add(1);
        self.alive_prc = self.alive_prc.wrapping_add(1);
    }

    /// Remove a process that ended; returns whether the scheduler is to be
    /// woken.
    pub fn unregister_prc(&mut self) -> (wake: bool)
        ensures
            final(self).counters() == after_unregister(old(self).counters()),
            wake == (old(self).spec_alive_prc() == 1),
            final(self).orders() == old(self).orders(),
            final(self).spec_capacity() == old(self).spec_capacity(),
            final(self).spec_force_early_exit() == old(self).spec_force_early_exit(),
    {
        self.hw_prc = self.hw_prc.wrapping_sub(1);
        self.leave()
    }

    /// A process waits on a lock and leaves the delta-cycle; returns whether
    /// the scheduler is to be woken.
    pub fn lock_prc(&mut self) -> (wake: bool)
        ensures
            final(self).spec_locked_prc() == vstd::wrapping::usize_specs::wrapping_add(
                old(self).spec_locked_prc(),
                1,
            ),
            final(self).spec_alive_prc() == vstd::wrapping::isize_specs::wrapping_sub(
                old(self).spec_alive_prc(),
                1,
            ),
            wake == (old(self).spec_alive_prc() == 1),
            final(self).spec_hw_prc() == old(self).spec_hw_prc(),
            final(self).spec_unlocked_prc() == old(self).spec_unlocked_prc(),
            final(self).spec_unlock_evt() == old(self).spec_unlock_evt(),
            final(self).orders() == old(self).orders(),
            final(self).spec_capacity() == old(self).spec_capacity(),
            final(self).spec_force_early_exit() == old(self).spec_force_early_exit(),
    {
        self.locked_prc = self.locked_prc.wrapping_add(1);
        self.leave()
    }

    /// A process got its lock and is alive again; returns whether the
    /// scheduler is to be woken (no process was counted alive before).
    pub fn unlock_prc(&mut self) -> (wake: bool)
        ensures
            final(self).spec_alive_prc() == vstd::wrapping::isize_specs::wrapping_add(
                old(self).spec_alive_prc(),
                1,
            ),
            final(self).spec_locked_prc() == vstd::wrapping::usize_specs::wrapping_sub(
                old(self).spec_locked_prc(),
                1,
            ),
            final(self).spec_unlocked_prc() == vstd::wrapping::usize_specs::wrapping_add(
                old(self).spec_unlocked_prc(),
                1,
            ),
            wake == (old(self).spec_alive_prc() == -1),
            final(self).spec_hw_prc() == old(self).spec_hw_prc(),
            final(self).spec_unlock_evt() == old(self).spec_unlock_evt(),
            final(self).orders() == old(self).orders(),
            final(self).spec_capacity() == old(self).spec_capacity(),
            final(self).spec_force_early_exit() == old(self).spec_force_early_exit(),
    {
        let pre = self.alive_prc;
        self.alive_prc = pre.wrapping_add(1);
        self.locked_prc = self.locked_prc.wrapping_sub(1);
        self.unlocked_prc = self.unlocked_prc.wrapping_add(1);
        pre == -1
    }

    /// Record a lock release during the delta-cycle.
    pub fn unlock_evt(&mut self)
        ensures
            final(self).spec_unlock_evt() == vstd::wrapping::usize_specs::wrapping_add(
                old(self).spec_unlock_evt(),
                1,
            ),
            final(self).spec_hw_prc() == old(self).spec_hw_prc(),
            final(self).spec_alive_prc() == old(self).spec_alive_prc(),
            final(self).spec_locked_prc() == old(self).spec_locked_prc(),
            final(self).spec_unlocked_prc() == old(self).spec_unlocked_prc(),
            final(self).orders() == old(self).orders(),
            final(self).spec_capacity() == old(self).spec_capacity(),
            final(self).spec_force_early_exit() == old(self).spec_force_early_exit(),
    {
        self.unlock_evt = self.unlock_evt.wrapping_add(1);
    }

    /// Whether released processes are still to be rescheduled: fewer have
    /// come back than locks were released.
    pub fn unlock_pending(&self) -> (r: bool)
        ensures
            r == (self.spec_unlock_evt() > self.spec_unlocked_prc()),
    {
        self.unlock_evt > self.unlocked_prc
    }

    /// Whether a lock was released during the delta-cycle.
    pub fn has_unlock_evt(&self) -> (r: bool)
        ensures
            r == (self.spec_unlock_evt() > 0),
    {
        self.unlock_evt > 0
    }

    /// Clear the lock release counters at the end of a delta-cycle.
    pub fn clear_unlock(&mut self)
        ensures
            final(self).spec_unlock_evt() == 0,
            final(self).spec_unlocked_prc() == 0,
            final(self).spec_hw_prc() == old(self).spec_hw_prc(),
            final(self).spec_alive_prc() == old(self).spec_alive_prc(),
            final(self).spec_locked_prc() == old(self).spec_locked_prc(),
            final(self).orders() == old(self).orders(),
            final(self).spec_capacity() == old(self).spec_capacity(),
            final(self).spec_force_early_exit() == old(self).spec_force_early_exit(),
    {
        self.unlock_evt = 0;
        self.unlocked_prc = 0;
    }

    /// `woken` processes were woken for the new delta-cycle and are alive.
    pub fn wake_prc(&mut self, woken: usize)
        ensures
            final(self).spec_alive_prc() == vstd::wrapping::isize_specs::wrapping_add(
                old(self).spec_alive_prc(),
                woken as isize,
            ),
            final(self).spec_hw_prc() == old(self).spec_hw_prc(),
            final(self).spec_locked_prc() == old(self).spec_locked_prc(),
            final(self).spec_unlocked_prc() == old(self).spec_unlocked_prc(),
            final(self).spec_unlock_evt() == old(self).spec_unlock_evt(),
            final(self).orders() == old(self).orders(),
            final(self).spec_capacity() == old(self).spec_capacity(),
            final(self).spec_force_early_exit() == old(self).spec_force_early_exit(),
    {
        self.alive_prc = self.alive_prc.wrapping_add(woken as isize);
    }

    /// Whether the user asked for an early stop.
    pub fn force_early_exit(&self) -> (r: bool)
        ensures
            r == self.spec_force_early_exit(),
    {
        self.force_early_exit
    }

    /// Ask for, or withdraw, an early stop.
    pub fn set_force_early_exit(&mut self, value: bool)
        ensures
            final(self).spec_force_early_exit() == value,
            final(self).counters() == old(self).counters(),
            final(self).orders() == old(self).orders(),
            final(self).spec_capacity() == old(self).spec_capacity(),
    {
        self.force_early_exit = value;
    }

    /// Most orders the queue holds.
    pub fn capacity(&self) -> (r: usize)
        ensures
            r == self.spec_capacity(),
    {
        self.capacity
    }

    /// Whether one more order fits in the queue.
    pub fn has_room(&self) -> (r: bool)
        ensures
            r == (self.orders().len() < self.spec_capacity()),
    {
        self.order_q.len() < self.capacity
    }

    /// Number of registered processes.
    pub fn hw_prc(&self) -> (r: usize)
        ensures
            r == self.spec_hw_prc(),
    {
        self.hw_prc
    }

    /// Number of processes alive in the delta-cycle.
    pub fn alive_prc(&self) -> (r: isize)
        ensures
            r == self.spec_alive_prc(),
    {
        self.alive_prc
    }
}

/// The counters after a process registers: one more registered and alive.
pub open spec fn after_register(c: (usize, isize, usize, usize, usize)) -> (
    usize,
    isize,
    usize,
    usize,
    usize,
) {
    (
        vstd::wrapping::usize_specs::wrapping_add(c.0, 1),
        vstd::wrapping::isize_specs::wrapping_add(c.1, 1),
        c.2,
        c.3,
        c.4,
    )
}

/// The counters after a process ends: one less registered and alive.
pub open spec fn after_unregister(c: (usize, isize, usize, usize, usize)) -> (
    usize,
    isize,
    usize,
    usize,
    usize,
) {
    (
        vstd::wrapping::usize_specs::wrapping_sub(c.0, 1),
        vstd::wrapping::isize_specs::wrapping_sub(c.1, 1),
        c.2,
        c.3,
        c.4,
    )
}

/// A process that registers and then ends leaves the counters as they
/// were, away from the counters' bounds.
pub proof fn law_register_then_unregister(c: (usize, isize, usize, usize, usize))
    requires
        c.0 < usize::MAX,
        c.1 < isize::MAX,
    ensures
        after_unregister(after_register(c)) == c,
{
}

} // verus!
