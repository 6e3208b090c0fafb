use vstd::prelude::*;

verus! {

pub const IA32_GS_BASE: u32 = 0xC000_0101;
pub const IA32_FS_BASE: u32 = 0xC000_0100;
pub const IA32_KERNEL_GS_BASE: u32 = 0xC000_0102;

/// The per-processor block that the system-call entry reaches through GS: the
/// kernel stack to switch to and the user stack saved on entry.
#[derive(Debug)]
pub struct PerCpu {
    pub kernel_rsp: u64,
    pub user_rsp: u64,
}

impl PerCpu {
    pub fn new() -> (r: Self)
        ensures
            r.kernel_rsp == 0 && r.user_rsp == 0,
    {
        PerCpu { kernel_rsp: 0, user_rsp: 0 }
    }
}

/// Sets the kernel stack that the next system call from user mode runs on.
pub fn set_kernel_rsp(percpu: &mut PerCpu, rsp: u64)
    ensures
        final(percpu).kernel_rsp == rsp,
        final(percpu).user_rsp == old(percpu).user_rsp,
{
    percpu.kernel_rsp = rsp;
}

} // verus!
