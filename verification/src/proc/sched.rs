use vstd::prelude::*;
use std::collections::{BTreeMap, VecDeque};
use vstd::std_specs::iter::IteratorSpec;
use crate::proc::context::KernelContext;
use crate::proc::task_manager::{Task, TaskManager, TaskState, WaitReason};
use crate::syscall::syscall_dispatch::TrapFrame;

verus! {

broadcast use vstd::std_specs::btree::group_btree_axioms, vstd::laws_cmp::group_laws_cmp;

pub type Tid = u64;

/// How many timer ticks a task runs before the scheduler is asked to preempt it.
pub const QUANTUM_TICKS: u64 = 30;

/// The scheduler's own flags: a reschedule is pending, and the ticks left in the
/// running task's quantum.
#[derive(Debug)]
pub struct SchedState {
    pub need_resched: bool,
    pub ticks_left: u64,
}

impl SchedState {
    pub fn new() -> (r: Self)
        ensures
            !r.need_resched,
            r.ticks_left == QUANTUM_TICKS,
    {
        SchedState { need_resched: false, ticks_left: QUANTUM_TICKS }
    }
}

/// `t` with its queued flag set to `q`.
pub open spec fn with_queued(t: Task, q: bool) -> Task {
    Task { queued: q, ..t }
}

/// `t` made ready: no longer waiting on anything.
pub open spec fn made_ready(t: Task) -> Task {
    Task { wait: None, state: TaskState::Ready, ..t }
}

/// The run queue holds each task at most once, exactly the tasks marked queued,
/// and no running task.
pub open spec fn queue_inv(tasks: Map<u64, Task>, rq: Seq<u64>) -> bool {
    &&& rq.no_duplicates()
    &&& forall|k: u64| #[trigger] tasks.contains_key(k) ==> tasks[k].tid == k
    &&& forall|k: u64| #[trigger] tasks.contains_key(k) ==> (tasks[k].queued <==> rq.contains(k))
    &&& forall|k: u64| #[trigger] tasks.contains_key(k) && tasks[k].state == TaskState::Running ==> !tasks[k].queued
}

/// Queueing task `tid` if it exists, is ready and is not yet queued.
pub open spec fn enqueue_spec(tasks: Map<u64, Task>, rq: Seq<u64>, tid: u64) -> (Map<u64, Task>, Seq<u64>) {
    if tasks.contains_key(tid) && !tasks[tid].queued && tasks[tid].state == TaskState::Ready {
        (tasks.insert(tid, with_queued(tasks[tid], true)), rq.push(tid))
    } else {
        (tasks, rq)
    }
}

/// Taking ids off the front of the run queue until one names a ready task; every
/// task taken off is marked not queued, ids of vanished tasks are dropped.
pub open spec fn dequeue_spec(tasks: Map<u64, Task>, rq: Seq<u64>) -> (Map<u64, Task>, Seq<u64>, Option<u64>)
    decreases rq.len(),
{
    if rq.len() == 0 {
        (tasks, rq, None)
    } else {
        let tid = rq[0];
        let rest = rq.drop_first();
        if !tasks.contains_key(tid) {
            dequeue_spec(tasks, rest)
        } else {
            let t2 = tasks.insert(tid, with_queued(tasks[tid], false));
            if tasks[tid].state == TaskState::Ready {
                (t2, rest, Some(tid))
            } else {
                dequeue_spec(t2, rest)
            }
        }
    }
}

/// What a waiting task can be woken by.
#[derive(Debug, Clone, Copy)]
pub enum WakeCause {
    /// Terminal input arrived.
    Io,
    /// The timer reached this tick.
    Tick(u64),
}

/// Task `t` waits for what `cause` brings.
pub open spec fn wakes(t: Task, cause: WakeCause) -> bool {
    t.state == TaskState::Waiting && match cause {
        WakeCause::Io => t.wait == Some(WaitReason::IO),
        WakeCause::Tick(tick) => match t.wait {
            Some(WaitReason::SleepUntil(until)) => until <= tick,
            _ => false,
        },
    }
}

/// Waking, in the order of `ks`, every task that waits for `cause`: it becomes
/// ready and, unless already queued, is queued.
pub open spec fn wake_fold(tasks: Map<u64, Task>, rq: Seq<u64>, ks: Seq<u64>, cause: WakeCause) -> (Map<u64, Task>, Seq<u64>)
    decreases ks.len(),
{
    if ks.len() == 0 {
        (tasks, rq)
    } else {
        let k = ks[0];
        let t = tasks[k];
        if tasks.contains_key(k) && wakes(t, cause) {
            if t.queued {
                wake_fold(tasks.insert(k, made_ready(t)), rq, ks.drop_first(), cause)
            } else {
                wake_fold(tasks.insert(k, with_queued(made_ready(t), true)), rq.push(t.tid), ks.drop_first(), cause)
            }
        } else {
            wake_fold(tasks, rq, ks.drop_first(), cause)
        }
    }
}

/// `ks` lists the keys of a map in increasing order.
pub open spec fn keys_in_order(ks: Seq<u64>, dom: Set<u64>) -> bool {
    &&& ks.to_set() == dom
    &&& ks.no_duplicates()
    &&& forall|i: int, j: int| 0 <= i < j < ks.len() ==> ks[i] < ks[j]
}

proof fn lemma_increasing_keys(ks: Seq<&u64>)
    requires
        vstd::std_specs::btree::increasing_seq(ks),
    ensures
        forall|i: int, j: int| 0 <= i < j < ks.len() ==> *ks[i] < *ks[j],
{
    crate::proc::key_order::lemma_ref_u64_increasing(ks);
}

/// The ids of all tasks, in increasing order.
pub fn task_ids(tasks: &BTreeMap<u64, Task>) -> (v: Vec<u64>)
    ensures
        keys_in_order(v@, tasks@.dom()),
{
    let mut v: Vec<u64> = Vec::new();
    let ghost ks = tasks.keys().remaining();
    proof {
        vstd::std_specs::btree::axiom_spec_keys_iter(tasks);
    }
    for k in it: tasks.keys()
        invariant
            v@ == it.seq().subrange(0, it.index() as int).map_values(|r: &u64| *r),
            it.seq() == ks,
    {
        v.push(*k);
    }
    assert(v@ =~= ks.unref());
    proof {
        lemma_increasing_keys(ks);
    }
    v
}

/// Whether the trap came from user mode (ring 3).
pub fn in_user(tf: &TrapFrame) -> (r: bool)
    ensures
        r == (tf.iret.cs & 3 == 3),
{
    (tf.iret.cs & 3) == 3
}

/// Queues task `tid` if it exists, is ready and is not queued yet.
pub fn enqueue_ready_locked(tm: &mut TaskManager, rq: &mut VecDeque<Tid>, tid: Tid)
    ensures
        (final(tm).tasks@, final(rq)@) == enqueue_spec(old(tm).tasks@, old(rq)@, tid),
        final(tm).next_tid == old(tm).next_tid,
        final(tm).current == old(tm).current,
{
    let t = match tm.tasks.remove(&tid) {
        Some(t) => t,
        None => return,
    };
    if t.queued || t.state != TaskState::Ready {
        tm.tasks.insert(tid, t);
        assert(tm.tasks@ =~= old(tm).tasks@);
        return;
    }
    let mut t = t;
    t.queued = true;
    tm.tasks.insert(tid, t);
    rq.push_back(tid);
}

/// Queues task `tid` if it exists, is ready and is not queued yet.
pub fn enqueue_ready(tm: &mut TaskManager, rq: &mut VecDeque<Tid>, tid: Tid)
    ensures
        (final(tm).tasks@, final(rq)@) == enqueue_spec(old(tm).tasks@, old(rq)@, tid),
        final(tm).next_tid == old(tm).next_tid,
        final(tm).current == old(tm).current,
{
    enqueue_ready_locked(tm, rq, tid);
}

/// Takes the next ready task off the run queue.
pub fn dequeue_next_ready(tm: &mut TaskManager, rq: &mut VecDeque<Tid>) -> (r: Option<Tid>)
    ensures
        (final(tm).tasks@, final(rq)@, r) == dequeue_spec(old(tm).tasks@, old(rq)@),
        final(tm).next_tid == old(tm).next_tid,
        final(tm).current == old(tm).current,
{
    loop
        invariant
            dequeue_spec(tm.tasks@, rq@) == dequeue_spec(old(tm).tasks@, old(rq)@),
            tm.next_tid == old(tm).next_tid,
            tm.current == old(tm).current,
        decreases rq@.len(),
    {
        let ghost before = tm.tasks@;
        let ghost rq_before = rq@;
        let tid = match rq.pop_front() {
            Some(tid) => tid,
            None => return None,
        };
        assert(rq_before[0] == tid && rq_before.drop_first() =~= rq@);
        match tm.tasks.remove(&tid) {
            None => {
                assert(tm.tasks@ =~= before);
            },
            Some(t) => {
                let mut t = t;
                t.queued = false;
                let ready = t.state == TaskState::Ready;
                tm.tasks.insert(tid, t);
                assert(tm.tasks@ =~= before.insert(tid, with_queued(before[tid], false)));
                if ready {
                    return Some(tid);
                }
            },
        }
    }
}

/// Wakes, in id order, every task that waits for `cause`.
fn wake_where(tm: &mut TaskManager, rq: &mut VecDeque<Tid>, cause: WakeCause)
    ensures
        exists|ks: Seq<u64>|
            keys_in_order(ks, old(tm).tasks@.dom()) && (final(tm).tasks@, final(rq)@) == wake_fold(
                old(tm).tasks@,
                old(rq)@,
                ks,
                cause,
            ),
        final(tm).next_tid == old(tm).next_tid,
        final(tm).current == old(tm).current,
{
    let ids = task_ids(&tm.tasks);
    let ghost ks = ids@;
    let mut i: usize = 0;
    assert(ks.skip(0) =~= ks);
    while i < ids.len()
        invariant
            i <= ids@.len(),
            ks == ids@,
            tm.tasks@.dom() == old(tm).tasks@.dom(),
            wake_fold(tm.tasks@, rq@, ks.skip(i as int), cause) == wake_fold(old(tm).tasks@, old(rq)@, ks, cause),
            tm.next_tid == old(tm).next_tid,
            tm.current == old(tm).current,
        decreases ids@.len() - i,
    {
        let k = ids[i];
        proof {
            assert(ks.skip(i as int)[0] == k);
            assert(ks.skip(i as int).drop_first() =~= ks.skip(i + 1));
        }
        let ghost before = tm.tasks@;
        let ghost rq_before = rq@;
        if let Some(t) = tm.tasks.remove(&k) {
            let mut t = t;
            let woken = t.state == TaskState::Waiting && match cause {
                WakeCause::Io => match t.wait {
                    Some(WaitReason::IO) => true,
                    _ => false,
                },
                WakeCause::Tick(tick) => match t.wait {
                    Some(WaitReason::SleepUntil(until)) => until <= tick,
                    _ => false,
                },
            };
            if woken {
                t.wait = None;
                t.state = TaskState::Ready;
                if !t.queued {
                    t.queued = true;
                    rq.push_back(t.tid);
                }
            }
            tm.tasks.insert(k, t);
            proof {
                let bt = before[k];
                if wakes(bt, cause) {
                    if bt.queued {
                        assert(tm.tasks@ =~= before.insert(k, made_ready(bt)));
                    } else {
                        assert(tm.tasks@ =~= before.insert(k, with_queued(made_ready(bt), true)));
                        assert(rq@ =~= rq_before.push(bt.tid));
                    }
                } else {
                    assert(tm.tasks@ =~= before);
                }
            }
        } else {
            assert(tm.tasks@ =~= before);
        }
        i = i + 1;
    }
    assert(ks.skip(i as int) =~= Seq::<u64>::empty());
}

/// Wakes every task waiting for terminal input.
pub fn wake_tty_readers(tm: &mut TaskManager, rq: &mut VecDeque<Tid>)
    ensures
        exists|ks: Seq<u64>|
            keys_in_order(ks, old(tm).tasks@.dom()) && (final(tm).tasks@, final(rq)@) == wake_fold(
                old(tm).tasks@,
                old(rq)@,
                ks,
                WakeCause::Io,
            ),
        final(tm).next_tid == old(tm).next_tid,
        final(tm).current == old(tm).current,
{
    wake_where(tm, rq, WakeCause::Io);
}

/// Wakes every task whose sleep ends at or before `tick`.
pub fn wake_sleepers(tm: &mut TaskManager, rq: &mut VecDeque<Tid>, tick: u64)
    ensures
        exists|ks: Seq<u64>|
            keys_in_order(ks, old(tm).tasks@.dom()) && (final(tm).tasks@, final(rq)@) == wake_fold(
                old(tm).tasks@,
                old(rq)@,
                ks,
                WakeCause::Tick(tick),
            ),
        final(tm).next_tid == old(tm).next_tid,
        final(tm).current == old(tm).current,
{
    wake_where(tm, rq, WakeCause::Tick(tick));
}

/// The quantum bookkeeping of one timer tick for a running task: when the
/// quantum runs out it restarts and a reschedule is requested.
pub open spec fn tick_quantum(s: SchedState, running: bool) -> (bool, u64) {
    if !running {
        (s.need_resched, s.ticks_left)
    } else if s.ticks_left > 1 {
        (s.need_resched, (s.ticks_left - 1) as u64)
    } else {
        (true, QUANTUM_TICKS)
    }
}

/// One timer tick: wakes the sleepers whose time has come, counts the quantum of
/// the running task down, and returns the process to charge the tick to.
pub fn on_timer_tick(sched: &mut SchedState, tm: &mut TaskManager, rq: &mut VecDeque<Tid>, tick: u64) -> (charge: Option<u64>)
    ensures
        exists|ks: Seq<u64>|
            keys_in_order(ks, old(tm).tasks@.dom()) && (final(tm).tasks@, final(rq)@) == wake_fold(
                old(tm).tasks@,
                old(rq)@,
                ks,
                WakeCause::Tick(tick),
            ),
        charge == (if final(tm).tasks@.contains_key(old(tm).current) {
            Some(final(tm).tasks@[old(tm).current].pid)
        } else {
            None
        }),
        (final(sched).need_resched, final(sched).ticks_left) == tick_quantum(*old(sched), old(tm).current != 0),
        final(tm).next_tid == old(tm).next_tid,
        final(tm).current == old(tm).current,
{
    wake_sleepers(tm, rq, tick);
    let charge = match tm.tasks.get(&tm.current) {
        Some(t) => Some(t.pid),
        None => None,
    };
    if tm.current == 0 {
        return charge;
    }
    let left = sched.ticks_left;
    sched.ticks_left = left.wrapping_sub(1);
    if left > 1 {
        return charge;
    }
    sched.ticks_left = QUANTUM_TICKS;
    sched.need_resched = true;
    charge
}

/// Decides at the end of an interrupt whether the running task is preempted: only
/// with a reschedule pending, from user mode, and for a task that exists. A
/// running task is then made ready and queued again. Returns whether to switch to
/// the scheduler.
pub fn schedule_irq(sched: &mut SchedState, tm: &mut TaskManager, rq: &mut VecDeque<Tid>, tf: &TrapFrame) -> (switch: bool)
    ensures
        ({
            let cur = old(tm).current;
            let go = cur != 0 && old(sched).need_resched && (tf.iret.cs & 3 == 3);
            &&& final(sched).need_resched == (old(sched).need_resched && !go)
            &&& final(sched).ticks_left == old(sched).ticks_left
            &&& switch == (go && old(tm).tasks@.contains_key(cur))
            &&& if switch && old(tm).tasks@[cur].state == TaskState::Running {
                (final(tm).tasks@, final(rq)@) == enqueue_spec(
                    old(tm).tasks@.insert(cur, with_queued(Task { state: TaskState::Ready, ..old(tm).tasks@[cur] }, false)),
                    old(rq)@,
                    cur,
                )
            } else {
                final(tm).tasks@ == old(tm).tasks@ && final(rq)@ == old(rq)@
            }
        }),
        final(tm).next_tid == old(tm).next_tid,
        final(tm).current == old(tm).current,
{
    let cur = tm.current;
    if cur == 0 {
        return false;
    }
    if !sched.need_resched {
        return false;
    }
    if !in_user(tf) {
        return false;
    }
    sched.need_resched = false;
    let t = match tm.tasks.remove(&cur) {
        Some(t) => t,
        None => return false,
    };
    if t.state == TaskState::Running {
        let mut t = t;
        t.state = TaskState::Ready;
        t.queued = false;
        tm.tasks.insert(cur, t);
        enqueue_ready_locked(tm, rq, cur);
    } else {
        tm.tasks.insert(cur, t);
        assert(tm.tasks@ =~= old(tm).tasks@);
    }
    true
}

/// What the low-level switch to a task needs: its process, kernel stack top, user
/// GS and FS bases, and saved kernel context.
#[derive(Debug, Clone, Copy)]
pub struct SwitchTarget {
    pub pid: u64,
    pub kstack_top: u64,
    pub user_gs_base: u64,
    pub user_fs_base: u64,
    pub kctx: KernelContext,
}

/// The bookkeeping of switching to task `next`: its quantum starts afresh, and if
/// it exists it becomes the running, unqueued, current task.
pub fn switch_to_task(sched: &mut SchedState, tm: &mut TaskManager, next: Tid) -> (r: Option<SwitchTarget>)
    ensures
        final(sched).ticks_left == QUANTUM_TICKS,
        final(sched).need_resched == old(sched).need_resched,
        final(tm).next_tid == old(tm).next_tid,
        !old(tm).tasks@.contains_key(next) ==> r is None && final(tm).tasks@ == old(tm).tasks@ && final(tm).current
            == old(tm).current,
        old(tm).tasks@.contains_key(next) ==> {
            let t = old(tm).tasks@[next];
            &&& r == Some(SwitchTarget {
                pid: t.pid,
                kstack_top: t.kstack_top,
                user_gs_base: t.user_gs_base,
                user_fs_base: t.user_fs_base,
                kctx: t.kctx,
            })
            &&& final(tm).tasks@ == old(tm).tasks@.insert(next, with_queued(Task { state: TaskState::Running, ..t }, false))
            &&& final(tm).current == next
        },
{
    sched.ticks_left = QUANTUM_TICKS;
    let t = match tm.tasks.remove(&next) {
        Some(t) => t,
        None => return None,
    };
    let mut t = t;
    t.queued = false;
    t.state = TaskState::Running;
    let target = SwitchTarget {
        pid: t.pid,
        kstack_top: t.kstack_top,
        user_gs_base: t.user_gs_base,
        user_fs_base: t.user_fs_base,
        kctx: t.kctx,
    };
    tm.tasks.insert(next, t);
    tm.current = next;
    Some(target)
}

} // verus!
