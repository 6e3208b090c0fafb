use vstd::prelude::*;
use crate::proc::task_manager::TaskManager;
use crate::shared::HZ;

verus! {

broadcast use vstd::std_specs::btree::group_btree_axioms, vstd::laws_cmp::group_laws_cmp;

/// The process of the running task; none in the scheduler or for a task that is
/// gone.
pub fn current_pid(tm: &TaskManager) -> (r: Option<u64>)
    ensures
        r == (if tm.current != 0 && tm.tasks@.contains_key(tm.current) {
            Some(tm.tasks@[tm.current].pid)
        } else {
            None
        }),
{
    let tid = tm.current_tid();
    if tid == 0 {
        return None;
    }
    match tm.tasks.get(&tid) {
        Some(t) => Some(t.pid),
        None => None,
    }
}

/// The running task's id and process.
pub fn current_task_ids(tm: &TaskManager) -> (r: Option<(u64, u64)>)
    ensures
        r == (if tm.tasks@.contains_key(tm.current) {
            Some((tm.current, tm.tasks@[tm.current].pid))
        } else {
            None
        }),
{
    let tid = tm.current_tid();
    match tm.tasks.get(&tid) {
        Some(t) => Some((tid, t.pid)),
        None => None,
    }
}

/// The running task's process.
pub fn current_task_pid(tm: &TaskManager) -> (r: Option<u64>)
    ensures
        r == (if tm.tasks@.contains_key(tm.current) {
            Some(tm.tasks@[tm.current].pid)
        } else {
            None
        }),
{
    let tid = tm.current_tid();
    match tm.tasks.get(&tid) {
        Some(t) => Some(t.pid),
        None => None,
    }
}

/// Milliseconds as timer ticks, rounded down.
pub fn ms_to_ticks(ms: u64) -> (r: u64)
    requires
        ms * (HZ as int) <= u64::MAX,
    ensures
        r == ms * (HZ as int) / 1000,
{
    (ms * HZ as u64) / 1000
}

/// The bit of signal `sig` in a signal mask: signal 1 is bit 0.
pub fn sig_bit(sig: usize) -> (r: u64)
    requires
        1 <= sig <= 64,
    ensures
        r == 1u64 << ((sig - 1) as u64),
{
    1u64 << ((sig - 1) as u64)
}

} // verus!
