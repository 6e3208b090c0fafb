use vstd::prelude::*;
use std::collections::BTreeMap;
use crate::proc::context::KernelContext;
use crate::proc::process::UserContext;
use crate::shared::{PROC_KERNEL_STACK_REGION_TOP, PROC_KERNEL_STACK_STRIDE};
use crate::syscall::syscall_dispatch::{TrapFrame, TRAP_FRAME_SIZE};

verus! {

broadcast use vstd::std_specs::btree::group_btree_axioms, vstd::laws_cmp::group_laws_cmp;

#[derive(Debug, Clone, Copy, PartialEq, Eq, Structural)]
pub enum TaskState {
    Ready,
    Running,
    Waiting,
    Exited(i64),
    Faulted,
}

#[derive(Debug, Clone, Copy, PartialEq, Eq, Structural)]
pub enum WaitReason {
    AnyChild,
    ChildPid(u64),
    SleepUntil(u64),
    IO,
}

/// A thread of a process: its ids, scheduling state and saved contexts.
#[derive(Debug)]
pub struct Task {
    pub tid: u64,
    pub pid: u64,
    pub state: TaskState,
    pub ctx: UserContext,
    pub kctx: KernelContext,
    pub queued: bool,
    pub wait: Option<WaitReason>,
    pub wake_tick: u64,
    pub kstack_top: u64,
    pub user_gs_base: u64,
    pub user_fs_base: u64,
    pub clear_child_tid: u64,
}

impl Task {
    /// Lays out the first entry into user mode on the task's kernel stack: a trap
    /// frame holding the user context just below the stack top, and below it the
    /// slot for the return address that the first context switch pops. Returns
    /// where the trap frame goes and what it holds; the kernel context then
    /// starts at the return-address slot.
    pub fn init_user_entry_kctx(&mut self) -> (r: (u64, TrapFrame))
        requires
            old(self).kstack_top >= TRAP_FRAME_SIZE + 8,
        ensures
            r.0 == old(self).kstack_top - TRAP_FRAME_SIZE,
            r.1.regs == old(self).ctx.regs,
            r.1.iret == old(self).ctx.iret,
            r.1.vector == 0,
            r.1.error_code == 0,
            final(self).kctx.rsp == r.0 - 8,
            final(self).kctx.r15 == 0 && final(self).kctx.r14 == 0 && final(self).kctx.r13 == 0,
            final(self).kctx.r12 == 0 && final(self).kctx.rbx == 0 && final(self).kctx.rbp == 0,
            final(self).tid == old(self).tid && final(self).pid == old(self).pid,
            final(self).state == old(self).state && final(self).queued == old(self).queued,
            final(self).wait == old(self).wait && final(self).kstack_top == old(self).kstack_top,
            final(self).ctx == old(self).ctx,
            final(self).wake_tick == old(self).wake_tick && final(self).user_gs_base == old(self).user_gs_base,
            final(self).user_fs_base == old(self).user_fs_base && final(self).clear_child_tid == old(self).clear_child_tid,
    {
        let frame_at = self.kstack_top - TRAP_FRAME_SIZE;
        let frame = TrapFrame { regs: self.ctx.regs, vector: 0, error_code: 0, iret: self.ctx.iret };
        let mut kctx = KernelContext::default();
        kctx.rsp = frame_at - 8;
        self.kctx = kctx;
        (frame_at, frame)
    }
}

/// All tasks, by id, with the id the next task gets and the task now running
/// (0 while the scheduler itself runs).
#[derive(Debug)]
pub struct TaskManager {
    pub tasks: BTreeMap<u64, Task>,
    pub next_tid: u64,
    pub current: u64,
}

impl TaskManager {
    /// Every task is filed under its own id.
    pub open spec fn wf(&self) -> bool {
        forall|k: u64| #[trigger] self.tasks@.contains_key(k) ==> self.tasks@[k].tid == k
    }

    pub fn new() -> (r: Self)
        ensures
            r.tasks@ == Map::<u64, Task>::empty(),
            r.next_tid == 1,
            r.current == 0,
            r.wf(),
    {
        TaskManager { tasks: BTreeMap::new(), next_tid: 1, current: 0 }
    }

    /// Hands out the next task id.
    pub fn get_next_tid(&mut self) -> (r: u64)
        requires
            old(self).next_tid < u64::MAX,
        ensures
            r == old(self).next_tid,
            final(self).next_tid == old(self).next_tid + 1,
            final(self).tasks@ == old(self).tasks@,
            final(self).current == old(self).current,
    {
        let tid = self.next_tid;
        self.next_tid = self.next_tid + 1;
        tid
    }

    /// The id of the running task, 0 in the scheduler.
    pub fn current_tid(&self) -> (r: u64)
        ensures
            r == self.current,
    {
        self.current
    }

    pub fn set_current_tid(&mut self, tid: u64)
        ensures
            final(self).current == tid,
            final(self).tasks@ == old(self).tasks@,
            final(self).next_tid == old(self).next_tid,
    {
        self.current = tid;
    }

    /// The top of task `tid`'s kernel stack: stacks sit one stride apart below the
    /// top of their region.
    pub fn kstack_top_for_tid(tid: u64) -> (r: u64)
        requires
            tid * PROC_KERNEL_STACK_STRIDE <= PROC_KERNEL_STACK_REGION_TOP,
        ensures
            r == PROC_KERNEL_STACK_REGION_TOP - tid * PROC_KERNEL_STACK_STRIDE,
    {
        PROC_KERNEL_STACK_REGION_TOP - tid * PROC_KERNEL_STACK_STRIDE
    }
}

} // verus!
