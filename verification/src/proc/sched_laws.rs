use vstd::prelude::*;
use crate::proc::sched::{dequeue_spec, enqueue_spec, tick_quantum, SchedState, QUANTUM_TICKS, made_ready, queue_inv, wake_fold, wakes, with_queued, WakeCause};
use crate::proc::task_manager::{Task, TaskState};

verus! {

/// Queueing a task keeps the run queue consistent with the queued flags.
pub proof fn law_enqueue_keeps_queue_inv(tasks: Map<u64, Task>, rq: Seq<u64>, tid: u64)
    requires
        queue_inv(tasks, rq),
    ensures
        queue_inv(enqueue_spec(tasks, rq, tid).0, enqueue_spec(tasks, rq, tid).1),
{
    let (t2, rq2) = enqueue_spec(tasks, rq, tid);
    if tasks.contains_key(tid) && !tasks[tid].queued && tasks[tid].state == TaskState::Ready {
        assert(!rq.contains(tid));
        assert forall|k: u64| #[trigger] t2.contains_key(k) implies (t2[k].queued <==> rq2.contains(k)) by {
            if k != tid {
                assert(rq2.contains(k) <==> rq.contains(k)) by {
                    if rq2.contains(k) {
                        let i = choose|i: int| 0 <= i < rq2.len() && rq2[i] == k;
                        assert(i < rq.len());
                        assert(rq[i] == k);
                    }
                    if rq.contains(k) {
                        let i = choose|i: int| 0 <= i < rq.len() && rq[i] == k;
                        assert(rq2[i] == k);
                    }
                }
            } else {
                assert(rq2[rq.len() as int] == tid);
            }
        }
        assert(rq2.no_duplicates()) by {
            assert forall|i: int, j: int| 0 <= i < j < rq2.len() implies rq2[i] != rq2[j] by {
                if j == rq.len() {
                    assert(rq[i] == rq2[i]);
                }
            }
        }
    }
}

/// Taking the next ready task off the run queue keeps the run queue consistent,
/// and the task it gives is ready, unqueued and off the queue.
pub proof fn law_dequeue_keeps_queue_inv(tasks: Map<u64, Task>, rq: Seq<u64>)
    requires
        queue_inv(tasks, rq),
    ensures
        ({
            let (t2, rq2, r) = dequeue_spec(tasks, rq);
            &&& queue_inv(t2, rq2)
            &&& t2.dom() == tasks.dom()
            &&& r is Some ==> t2.contains_key(r->Some_0) && t2[r->Some_0].state == TaskState::Ready
                && !t2[r->Some_0].queued && !rq2.contains(r->Some_0)
        }),
    decreases rq.len(),
{
    if rq.len() > 0 {
        let tid = rq[0];
        let rest = rq.drop_first();
        assert(!rest.contains(tid)) by {
            if rest.contains(tid) {
                let i = choose|i: int| 0 <= i < rest.len() && rest[i] == tid;
                assert(rq[i + 1] == tid);
            }
        }
        assert forall|k: u64| k != tid implies (rest.contains(k) <==> rq.contains(k)) by {
            if rq.contains(k) {
                let i = choose|i: int| 0 <= i < rq.len() && rq[i] == k;
                assert(i > 0);
                assert(rest[i - 1] == k);
            }
            if rest.contains(k) {
                let i = choose|i: int| 0 <= i < rest.len() && rest[i] == k;
                assert(rq[i + 1] == k);
            }
        }
        assert(rest.no_duplicates()) by {
            assert forall|i: int, j: int| 0 <= i < j < rest.len() implies rest[i] != rest[j] by {
                assert(rest[i] == rq[i + 1] && rest[j] == rq[j + 1]);
            }
        }
        assert(rq.contains(tid)) by {
            assert(rq[0] == tid);
        }
        if !tasks.contains_key(tid) {
            assert(queue_inv(tasks, rest));
            law_dequeue_keeps_queue_inv(tasks, rest);
        } else {
            let t2 = tasks.insert(tid, with_queued(tasks[tid], false));
            assert(queue_inv(t2, rest));
            assert(t2.dom() =~= tasks.dom());
            if tasks[tid].state != TaskState::Ready {
                law_dequeue_keeps_queue_inv(t2, rest);
            }
        }
    }
}

/// Waking tasks keeps the run queue consistent with the queued flags.
pub proof fn law_wake_keeps_queue_inv(tasks: Map<u64, Task>, rq: Seq<u64>, ks: Seq<u64>, cause: WakeCause)
    requires
        queue_inv(tasks, rq),
    ensures
        queue_inv(wake_fold(tasks, rq, ks, cause).0, wake_fold(tasks, rq, ks, cause).1),
    decreases ks.len(),
{
    if ks.len() > 0 {
        let k = ks[0];
        let t = tasks[k];
        if tasks.contains_key(k) && wakes(t, cause) {
            if t.queued {
                let t2 = tasks.insert(k, made_ready(t));
                assert(queue_inv(t2, rq));
                law_wake_keeps_queue_inv(t2, rq, ks.drop_first(), cause);
            } else {
                let t2 = tasks.insert(k, with_queued(made_ready(t), true));
                let rq2 = rq.push(t.tid);
                assert(t.tid == k);
                assert(!rq.contains(k));
                assert forall|j: u64| #[trigger] t2.contains_key(j) implies (t2[j].queued <==> rq2.contains(j)) by {
                    if j != k {
                        if rq2.contains(j) {
                            let i = choose|i: int| 0 <= i < rq2.len() && rq2[i] == j;
                            assert(i < rq.len());
                            assert(rq[i] == j);
                        }
                        if rq.contains(j) {
                            let i = choose|i: int| 0 <= i < rq.len() && rq[i] == j;
                            assert(rq2[i] == j);
                        }
                    } else {
                        assert(rq2[rq.len() as int] == k);
                    }
                }
                assert(rq2.no_duplicates()) by {
                    assert forall|a: int, b: int| 0 <= a < b < rq2.len() implies rq2[a] != rq2[b] by {
                        if b == rq.len() {
                            assert(rq[a] == rq2[a]);
                        }
                    }
                }
                assert(queue_inv(t2, rq2));
                law_wake_keeps_queue_inv(t2, rq2, ks.drop_first(), cause);
            }
        } else {
            law_wake_keeps_queue_inv(tasks, rq, ks.drop_first(), cause);
        }
    }
}

/// Preempting the running task (made ready and queued again) keeps the run queue
/// consistent.
pub proof fn law_preempt_keeps_queue_inv(tasks: Map<u64, Task>, rq: Seq<u64>, cur: u64)
    requires
        queue_inv(tasks, rq),
        tasks.contains_key(cur),
        tasks[cur].state == TaskState::Running,
    ensures
        ({
            let t1 = tasks.insert(cur, with_queued(Task { state: TaskState::Ready, ..tasks[cur] }, false));
            queue_inv(enqueue_spec(t1, rq, cur).0, enqueue_spec(t1, rq, cur).1)
        }),
{
    let t1 = tasks.insert(cur, with_queued(Task { state: TaskState::Ready, ..tasks[cur] }, false));
    assert(queue_inv(t1, rq));
    law_enqueue_keeps_queue_inv(t1, rq, cur);
}

/// Switching to a task that is not on the run queue keeps the run queue
/// consistent.
pub proof fn law_switch_keeps_queue_inv(tasks: Map<u64, Task>, rq: Seq<u64>, next: u64)
    requires
        queue_inv(tasks, rq),
        tasks.contains_key(next),
        !rq.contains(next),
    ensures
        queue_inv(tasks.insert(next, with_queued(Task { state: TaskState::Running, ..tasks[next] }, false)), rq),
{
}

/// The quantum state after `k` timer ticks of a running task, from `s`, each tick
/// as `on_timer_tick` describes it.
pub open spec fn ticks_applied(s: SchedState, k: nat) -> SchedState
    decreases k,
{
    if k == 0 {
        s
    } else {
        let prev = ticks_applied(s, (k - 1) as nat);
        let (need, left) = tick_quantum(prev, true);
        SchedState { need_resched: need, ticks_left: left }
    }
}

/// From a fresh quantum with no reschedule pending, the running task's ticks count
/// the quantum down one by one and a reschedule is requested on exactly the
/// `QUANTUM_TICKS`-th tick, when the quantum starts over.
pub proof fn law_resched_on_last_tick(s: SchedState, k: nat)
    requires
        !s.need_resched,
        s.ticks_left == QUANTUM_TICKS,
        1 <= k <= QUANTUM_TICKS,
    ensures
        k < QUANTUM_TICKS ==> !ticks_applied(s, k).need_resched && ticks_applied(s, k).ticks_left == QUANTUM_TICKS - k,
        k == QUANTUM_TICKS ==> ticks_applied(s, k).need_resched && ticks_applied(s, k).ticks_left == QUANTUM_TICKS,
    decreases k,
{
    if k > 1 {
        law_resched_on_last_tick(s, (k - 1) as nat);
    } else {
        assert(ticks_applied(s, 0) == s);
    }
}

} // verus!
