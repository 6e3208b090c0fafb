use vstd::prelude::*;

verus! {

/// The callee-saved registers and stack pointer of a kernel thread, as saved by a
/// context switch.
#[derive(Debug, Clone, Copy)]
pub struct KernelContext {
    pub rsp: u64,
    pub r15: u64,
    pub r14: u64,
    pub r13: u64,
    pub r12: u64,
    pub rbx: u64,
    pub rbp: u64,
}

impl Default for KernelContext {
    fn default() -> (r: Self)
        ensures
            r.rsp == 0 && r.r15 == 0 && r.r14 == 0 && r.r13 == 0 && r.r12 == 0 && r.rbx == 0 && r.rbp == 0,
    {
        KernelContext { rsp: 0, r15: 0, r14: 0, r13: 0, r12: 0, rbx: 0, rbp: 0 }
    }
}

} // verus!
