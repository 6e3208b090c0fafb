// The logic of a small x86_64 hobby kernel and its UEFI loader, with its
// contracts proved: the loader's memory map, kernel image and boot page tables,
// the boot and bitmap frame allocators, ACPI and PCI table parsing, the text
// console and tty line discipline, the RAM file system, procfs and the VFS,
// the initrd, ELF loading and user stacks, the scheduler's queues, and the
// decisions of the system-call layer.
pub mod arch;
pub mod boot;
pub mod console;
pub mod fs;
pub mod kernel_cmds;
pub mod memory;
pub mod paging;
pub mod proc;
pub mod shared;
pub mod sys;
pub mod syscall;
pub mod utils;

