use vstd::prelude::*;
use std::collections::VecDeque;
use crate::proc::context::KernelContext;
use crate::proc::process::{make_initial_user_ctx, InitialTaskInfo};
use crate::proc::sched::{enqueue_ready, Tid};
use crate::proc::task_manager::{Task, TaskManager, TaskState};
use crate::syscall::syscall_dispatch::{TrapFrame, TRAP_FRAME_SIZE};

verus! {

broadcast use vstd::std_specs::btree::group_btree_axioms, vstd::laws_cmp::group_laws_cmp;

/// Registers the first task `tid` of a new process `pid` that starts as `iti`
/// describes: a ready task in user mode whose kernel stack is laid out for its
/// first entry, queued at the back of the run queue. Returns where its trap frame
/// goes and what it holds.
pub fn spawn_task(
    tm: &mut TaskManager,
    rq: &mut VecDeque<Tid>,
    tid: u64,
    pid: u64,
    iti: &InitialTaskInfo,
    user_cs: u64,
    user_ss: u64,
) -> (r: (u64, TrapFrame))
    requires
        !old(tm).tasks@.contains_key(tid),
        !old(rq)@.contains(tid),
        iti.kstack_top >= TRAP_FRAME_SIZE + 8,
    ensures
        final(tm).tasks@.dom() == old(tm).tasks@.dom().insert(tid),
        forall|k: u64| k != tid && #[trigger] old(tm).tasks@.contains_key(k) ==> final(tm).tasks@[k] == old(tm).tasks@[k],
        final(rq)@ == old(rq)@.push(tid),
        ({
            let t = final(tm).tasks@[tid];
            &&& t.tid == tid && t.pid == pid && t.state == TaskState::Ready && t.queued
            &&& t.wait is None && t.wake_tick == 0 && t.kstack_top == iti.kstack_top
            &&& t.user_gs_base == 0 && t.user_fs_base == 0 && t.clear_child_tid == 0
            &&& t.ctx.regs.rdi == iti.argc && t.ctx.regs.rsi == iti.argv_ptr
            &&& t.ctx.iret.rip == iti.entry_rip && t.ctx.iret.rsp == iti.user_rsp
            &&& t.ctx.iret.cs == user_cs && t.ctx.iret.ss == user_ss
            &&& t.kctx.rsp == r.0 - 8
            &&& r.0 == iti.kstack_top - TRAP_FRAME_SIZE
            &&& r.1.regs == t.ctx.regs && r.1.iret == t.ctx.iret
        }),
        final(tm).current == old(tm).current && final(tm).next_tid == old(tm).next_tid,
{
    let mut task = Task {
        tid,
        pid,
        state: TaskState::Ready,
        ctx: make_initial_user_ctx(iti.entry_rip, iti.user_rsp, iti.argc, iti.argv_ptr, user_cs, user_ss),
        kctx: KernelContext::default(),
        queued: false,
        wait: None,
        wake_tick: 0,
        kstack_top: iti.kstack_top,
        user_gs_base: 0,
        user_fs_base: 0,
        clear_child_tid: 0,
    };
    let frame = task.init_user_entry_kctx();
    tm.tasks.insert(tid, task);
    enqueue_ready(tm, rq, tid);
    assert(tm.tasks@.dom() =~= old(tm).tasks@.dom().insert(tid));
    frame
}

} // verus!
