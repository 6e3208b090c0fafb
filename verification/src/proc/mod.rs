pub mod context;
pub mod elf;
pub mod key_order;
pub mod mmap_region;
pub mod proc_manager;
pub mod process;
pub mod sched;
pub mod sched_laws;
pub mod task_manager;
